//! What the proxy decides on what it knows, step by step where something has to
//! be asked for in between.
//!
//! Nothing is waited for here. Where something has to be asked for, a step says
//! what, and the next step takes the answer.

use std::sync::Arc;

use vstd::prelude::*;

use crate::address::{
    Destination, IpAddress, IpFamily, NamespacedHostname, NetworkAddress,
    SocketAddress,
};
use crate::error::{AuthorizationRejectionError, Error};
use crate::order::find_or_first;
use crate::random::choose_from;
use crate::rbac::{Authorization, Connection, RbacAction};
use crate::service::{Endpoint, Service};
use crate::state::{translate_port, Address, ProxyState};
use crate::text::join;
use crate::workload::{Workload, WorkloadInfo};

verus! {

/// What is held against the policies of a workload. Only the connection tells
/// contexts apart.
#[derive(Debug, Eq)]
pub struct ProxyRbacContext {
    pub conn: Connection,
    pub dest_workload: Arc<Workload>,
}

impl Clone for ProxyRbacContext {
    fn clone(&self) -> (r: Self)
        ensures
            r == *self,
    {
        ProxyRbacContext {
            conn: self.conn.clone(),
            dest_workload: self.dest_workload.clone(),
        }
    }
}

impl PartialEq for ProxyRbacContext {
    fn eq(&self, other: &Self) -> (r: bool) {
        self.conn == other.conn
    }
}

impl vstd::std_specs::cmp::PartialEqSpecImpl for ProxyRbacContext {
    open spec fn obeys_eq_spec() -> bool {
        true
    }

    open spec fn eq_spec(&self, other: &Self) -> bool {
        self.conn.same(other.conn)
    }
}

impl ProxyRbacContext {
    /// The connection alone.
    pub fn into_conn(self) -> (r: Connection)
        ensures
            r == self.conn,
    {
        self.conn
    }

    /// `<connection> (<UID of the workload>)`, where `conn` is how the connection
    /// is written.
    pub fn display(&self, conn: &str) -> (r: String)
        ensures
            r@ == conn@ + " ("@ + self.dest_workload.uid@ + ")"@,
    {
        let mut r = conn.to_string();
        r.append(" (");
        r.append(self.dest_workload.uid.as_str());
        r.append(")");
        r
    }
}

/// What is asked of the control plane.
#[derive(Debug, PartialEq, Eq)]
pub enum DemandKey {
    Address(NetworkAddress),
    Hostname(NamespacedHostname),
    Uid(String),
}

impl DemandKey {
    /// The key as it is written, where `ip` is how its address is written:
    /// `<network>/<ip>`, `<namespace>/<hostname>`, or the UID itself.
    pub open spec fn text(self, ip: Seq<char>) -> Seq<char> {
        match self {
            DemandKey::Address(a) => a.network@ + "/"@ + ip,
            DemandKey::Hostname(name) => name.namespace@ + "/"@ + name.hostname@,
            DemandKey::Uid(uid) => uid@,
        }
    }

    /// The key as it is written, where `ip` is how its address is written. A key
    /// without an address does not depend on it.
    pub fn display(&self, ip: &str) -> (r: String)
        ensures
            r@ == self.text(ip@),
    {
        match self {
            DemandKey::Address(a) => {
                let mut r = join(a.network.as_str(), "/");
                r.append(ip);
                r
            },
            DemandKey::Hostname(name) => {
                let mut r = join(name.namespace.as_str(), "/");
                r.append(name.hostname.as_str());
                r
            },
            DemandKey::Uid(uid) => uid.clone(),
        }
    }
}

/// A step of a lookup that may ask the control plane.
#[derive(Debug, PartialEq, Eq)]
pub enum Fetch<T> {
    /// The lookup is over.
    Done(Option<T>),
    /// The control plane has to be asked, and the lookup repeated when it has
    /// answered.
    Demand(DemandKey),
}

impl<T> Fetch<T> {
    /// The step that follows a lookup: a lookup that found nothing asks, where
    /// asking is possible and has not been done yet.
    pub open spec fn after(found: Option<T>, on_demand: bool, asked: bool, key: DemandKey) -> Self {
        if found is None && on_demand && !asked {
            Fetch::Demand(key)
        } else {
            Fetch::Done(found)
        }
    }
}

/// What has happened since the last step of a wait.
#[derive(Clone, Copy, Debug, PartialEq, Eq)]
pub enum WaitEvent {
    Started,
    /// Some workload was added.
    Changed,
    TimedOut,
}

/// A step of a wait for a workload.
#[derive(Debug, PartialEq, Eq)]
pub enum Wait {
    Done(Option<Arc<Workload>>),
    Continue,
}

/// How a workload is connected to.
#[derive(Clone, Copy, Debug, PartialEq, Eq)]
pub enum WorkloadIp {
    /// At this address.
    Ip(IpAddress),
    /// At no address of its own, but through a network gateway.
    ThroughGateway,
    /// At an address that its hostname resolves to.
    Resolve,
}

pub open spec fn accepted_by(restriction: Option<IpFamily>) -> spec_fn(IpAddress) -> bool {
    |ip: IpAddress| restriction matches Some(f) ==> f.accepts(ip)
}

/// How the workload `dst` is connected to, for a connection to `target`: at the
/// target address itself, if that is the workload's; or else at an address that
/// the service accepts, if possible of the family of the target; or else at one
/// that the hostname resolves to; or else through a gateway.
pub open spec fn workload_ip(
    dst: Arc<Workload>,
    target: SocketAddress,
    restriction: Option<IpFamily>,
) -> Result<WorkloadIp, Error> {
    if dst.workload_ips@.contains(target.ip) {
        Ok(WorkloadIp::Ip(target.ip))
    } else {
        match crate::order::like_or_first(
            dst.workload_ips@.filter(accepted_by(restriction)),
            target.ip,
        ) {
            Some(ip) => Ok(WorkloadIp::Ip(ip)),
            None => if dst.hostname@.len() > 0 {
                Ok(WorkloadIp::Resolve)
            } else if dst.network_gateway is Some {
                Ok(WorkloadIp::ThroughGateway)
            } else {
                Err(Error::NoValidDestination(dst))
            },
        }
    }
}

/// The addresses of an answer, where there is one.
pub open spec fn addresses(answer: Option<Vec<IpAddress>>) -> Option<Seq<IpAddress>> {
    match answer {
        Some(ips) => Some(ips@),
        None => None,
    }
}

/// Some address of `ips` is of the family of `like`.
pub open spec fn has_family(ips: Seq<IpAddress>, like: IpAddress) -> bool {
    exists|i: int| 0 <= i < ips.len() && (#[trigger] ips[i]).same_family(like)
}

/// `r` may come out of resolving the hostname of the workload, for a connection
/// to `target`, where `answer` is what the resolver answered: one of the
/// addresses, of the family of the target where there is one.
pub open spec fn may_resolve(
    workload: Workload,
    target: SocketAddress,
    answer: Option<Seq<IpAddress>>,
    r: Result<IpAddress, Error>,
) -> bool {
    match answer {
        None => r == Err::<IpAddress, Error>(Error::NoResolvedAddresses(workload.uid)),
        Some(ips) => if ips.len() == 0 {
            r == Err::<IpAddress, Error>(Error::EmptyResolvedAddresses(workload.uid))
        } else {
            &&& r matches Ok(ip)
            &&& ips.contains(ip)
            &&& has_family(ips, target.ip) ==> ip.same_family(target.ip)
        },
    }
}

/// A policy that denies the connection.
pub open spec fn denies(conn: Connection) -> spec_fn(Arc<Authorization>) -> bool {
    |p: Arc<Authorization>| p.action != RbacAction::Allow && p.accepts(conn)
}

/// Some policy of `ps` is an allow policy.
pub open spec fn has_allow(ps: Seq<Arc<Authorization>>) -> bool {
    exists|i: int| 0 <= i < ps.len() && (#[trigger] ps[i]).action == RbacAction::Allow
}

/// Some allow policy of `ps` matches the connection.
pub open spec fn some_allows(ps: Seq<Arc<Authorization>>, conn: Connection) -> bool {
    exists|i: int|
        0 <= i < ps.len() && (#[trigger] ps[i]).action == RbacAction::Allow && ps[i].accepts(conn)
}

/// What is decided on a connection under the policies `ps`: the first deny
/// policy that matches turns it away; or else it is let in where there is no
/// allow policy, or where one matches.
pub open spec fn decision(
    ps: Seq<Arc<Authorization>>,
    conn: Connection,
) -> Result<(), AuthorizationRejectionError> {
    match crate::search::first(ps, denies(conn)) {
        Some(p) => Err(AuthorizationRejectionError::ExplicitlyDenied(p.namespace, p.name)),
        None => if !has_allow(ps) || some_allows(ps, conn) {
            Ok(())
        } else {
            Err(AuthorizationRejectionError::NotAllowed)
        },
    }
}

/// A connection that a deny policy matches is turned away, whatever else
/// applies, and a policy that denies it is named.
pub proof fn lemma_deny(ps: Seq<Arc<Authorization>>, conn: Connection, i: int)
    requires
        0 <= i < ps.len(),
        ps[i].action == RbacAction::Deny,
        ps[i].accepts(conn),
    ensures
        exists|j: int|
            0 <= j < ps.len() && (#[trigger] ps[j]).action == RbacAction::Deny && ps[j].accepts(
                conn,
            ) && decision(ps, conn) == Err::<(), AuthorizationRejectionError>(
                AuthorizationRejectionError::ExplicitlyDenied(ps[j].namespace, ps[j].name),
            ),
{
    let p = denies(conn);
    assert(p(ps[i]));
    crate::search::lemma_first_is(ps, p);
    let found = crate::search::first(ps, p)->0;
    let j = choose|j: int| 0 <= j < ps.len() && ps[j] == found;
    assert(ps[j].action == RbacAction::Deny);
}

/// Where no deny policy matches a connection it is let in if and only if there
/// is no allow policy, or one of them matches; otherwise it is not allowed.
pub proof fn lemma_no_deny(ps: Seq<Arc<Authorization>>, conn: Connection)
    requires
        forall|i: int|
            0 <= i < ps.len() && (#[trigger] ps[i]).action == RbacAction::Deny ==> !ps[i].accepts(
                conn,
            ),
    ensures
        decision(ps, conn) is Ok <==> !has_allow(ps) || some_allows(ps, conn),
        decision(ps, conn) is Err ==> decision(ps, conn)->Err_0
            == AuthorizationRejectionError::NotAllowed,
{
    assert forall|j: int| 0 <= j < ps.len() implies !denies(conn)(#[trigger] ps[j]) by {
        assert(ps[j].action == RbacAction::Deny || ps[j].action == RbacAction::Allow);
    }
    crate::search::lemma_first_none(ps, denies(conn));
}

/// A workload to which no policy applies can be connected to.
pub proof fn lemma_no_policies(conn: Connection)
    ensures
        decision(Seq::empty(), conn) is Ok,
{
    lemma_no_deny(Seq::empty(), conn);
}

/// The address that a connection is made to is the target itself where it is
/// the workload's; otherwise it is an address of the workload that the service
/// accepts, and of the family of the target where there is such a one.
pub proof fn lemma_workload_ip(
    dst: Arc<Workload>,
    target: SocketAddress,
    restriction: Option<IpFamily>,
    ip: IpAddress,
)
    requires
        workload_ip(dst, target, restriction) == Ok::<WorkloadIp, Error>(WorkloadIp::Ip(ip)),
    ensures
        dst.workload_ips@.contains(ip),
        dst.workload_ips@.contains(target.ip) ==> ip == target.ip,
        ip != target.ip && restriction is Some ==> restriction->0.accepts(ip),
        (exists|i: int|
            0 <= i < dst.workload_ips@.len() && (#[trigger] dst.workload_ips@[i]).same_family(
                target.ip,
            ) && (restriction matches Some(f) ==> f.accepts(dst.workload_ips@[i])))
            ==> ip.same_family(target.ip),
{
    let ips = dst.workload_ips@;
    let p = accepted_by(restriction);
    let accepted = ips.filter(p);
    let like = crate::order::family_is(target.ip);
    if !ips.contains(target.ip) {
        crate::search::lemma_first_is(accepted, like);
        assert(accepted.contains(ip)) by {
            if crate::search::first(accepted, like) is None {
                assert(accepted[0] == ip);
            }
        }
        ips.lemma_filter_contains_rev(p, ip);
        let k = choose|k: int| 0 <= k < accepted.len() && accepted[k] == ip;
        ips.lemma_filter_pred(p, k);
        assert forall|i: int| 0 <= i < ips.len() && (#[trigger] ips[i]).same_family(target.ip) && (
        restriction matches Some(f) ==> f.accepts(ips[i])) implies ip.same_family(target.ip) by {
            ips.lemma_filter_contains(p, i);
            let l = choose|l: int| 0 <= l < accepted.len() && accepted[l] == ips[i];
            assert(like(accepted[l]));
        }
    }
}

/// A workload cannot be connected to if and only if it has neither an address
/// that fits, nor a hostname, nor a gateway. A hostname is resolved only where
/// no address fits, and a gateway is used only where there is no hostname
/// either.
pub proof fn lemma_workload_ip_owed(
    dst: Arc<Workload>,
    target: SocketAddress,
    restriction: Option<IpFamily>,
)
    ensures
        ({
            let fits = exists|i: int|
                0 <= i < dst.workload_ips@.len() && ((#[trigger] dst.workload_ips@[i]) == target.ip
                    || (restriction matches Some(f) ==> f.accepts(dst.workload_ips@[i])));
            match workload_ip(dst, target, restriction) {
                Ok(WorkloadIp::Ip(_)) => fits,
                Ok(WorkloadIp::Resolve) => !fits && dst.hostname@.len() > 0,
                Ok(WorkloadIp::ThroughGateway) => !fits && dst.hostname@.len() == 0
                    && dst.network_gateway is Some,
                Err(e) => !fits && dst.hostname@.len() == 0 && dst.network_gateway is None && e
                    == Error::NoValidDestination(dst),
            }
        }),
{
    let ips = dst.workload_ips@;
    let p = accepted_by(restriction);
    let accepted = ips.filter(p);
    if ips.contains(target.ip) {
        let i = choose|i: int| 0 <= i < ips.len() && ips[i] == target.ip;
        assert(ips[i] == target.ip);
    } else {
        crate::search::lemma_first_is(accepted, crate::order::family_is(target.ip));
        if accepted.len() > 0 {
            assert(accepted.contains(accepted[0]));
            ips.lemma_filter_contains_rev(p, accepted[0]);
            ips.lemma_filter_pred(p, 0);
            let i = choose|i: int| 0 <= i < ips.len() && ips[i] == accepted[0];
            assert(p(ips[i]));
        } else {
            assert forall|i: int| 0 <= i < ips.len() implies !p(#[trigger] ips[i]) by {
                if p(ips[i]) {
                    ips.lemma_filter_contains(p, i);
                }
            }
            assert forall|i: int| 0 <= i < ips.len() implies (#[trigger] ips[i]) != target.ip by {}
        }
    }
}

/// The state as a proxy sees it at one moment, with what it can do to learn more.
#[derive(Clone, Copy)]
pub struct DemandProxyState<'a> {
    pub state: &'a ProxyState,
    /// Whether the control plane can be asked for what is not known.
    pub on_demand: bool,
    pub hbone_port: u16,
}

impl<'a> DemandProxyState<'a> {
    pub fn new(state: &'a ProxyState, on_demand: bool, hbone_port: u16) -> (r: Self)
        ensures
            r.state == state,
            r.on_demand == on_demand,
            r.hbone_port == hbone_port,
    {
        DemandProxyState { state, on_demand, hbone_port }
    }

    pub fn set_hbone_port(&mut self, hbone_port: u16)
        ensures
            final(self).state == old(self).state,
            final(self).on_demand == old(self).on_demand,
            final(self).hbone_port == hbone_port,
    {
        self.hbone_port = hbone_port;
    }

    pub fn read(&self) -> (r: &'a ProxyState)
        ensures
            r == self.state,
    {
        self.state
    }

    pub fn supports_on_demand(&self) -> (r: bool)
        ensures
            r == self.on_demand,
    {
        self.on_demand
    }

    /// The services that the workload belongs to, where they are known.
    pub fn get_services_by_workload(&self, wl: &Workload) -> (r: Vec<Arc<Service>>)
        ensures
            r@ == self.services_of(*wl),
            r@ == wl.services@.filter_map(self.state.services.lookup()),
    {
        self.state.services.get_by_workload(wl)
    }

    /// Finds a workload by workload information.
    pub fn find_by_info(&self, wl: &WorkloadInfo) -> (r: Option<Arc<Workload>>)
        ensures
            r == self.state.workloads.by_info(*wl),
    {
        self.state.workloads.find_by_info(wl)
    }

    /// What is decided on a connection: by the policies that apply to the workload
    /// that it goes to.
    pub open spec fn decides(self, ctx: ProxyRbacContext) -> Result<
        (),
        AuthorizationRejectionError,
    > {
        decision(
            self.state.policies.applying(
                ctx.dest_workload.namespace@,
                ctx.dest_workload.authorization_policies@,
            ),
            ctx.conn,
        )
    }

    /// The services that the workload belongs to, where they are known.
    pub open spec fn services_of(self, wl: Workload) -> Seq<Arc<Service>> {
        wl.services@.filter_map(self.state.services.lookup())
    }

    /// The step that a lookup of a workload by its address takes.
    pub open spec fn fetch_by_address(self, addr: NetworkAddress, asked: bool) -> Fetch<
        Arc<Workload>,
    > {
        Fetch::after(
            self.state.workloads.by_address(addr),
            self.on_demand,
            asked,
            DemandKey::Address(addr),
        )
    }

    /// The step that a lookup of a workload by its UID takes.
    pub open spec fn fetch_by_uid(self, uid: String, asked: bool) -> Fetch<Arc<Workload>> {
        Fetch::after(
            self.state.workloads.by_uid(uid@),
            self.on_demand,
            asked,
            DemandKey::Uid(uid),
        )
    }

    /// Decides whether a connection is let in: by the policies of the namespace
    /// of the workload, those of all namespaces, and those the workload names.
    ///
    /// 1. If there are any DENY policies that match the request, deny the request.
    /// 2. If there are no ALLOW policies for the workload, allow the request.
    /// 3. If any of the ALLOW policies match the request, allow the request.
    /// 4. Deny the request.
    pub fn assert_rbac(&self, ctx: &ProxyRbacContext) -> (r: Result<
        (),
        AuthorizationRejectionError,
    >)
        ensures
            r == self.decides(*ctx),
            r == decision(
                self.state.policies.applying(
                    ctx.dest_workload.namespace@,
                    ctx.dest_workload.authorization_policies@,
                ),
                ctx.conn,
            ),
    {
        let wl = &ctx.dest_workload;
        let policies = self.state.policies.get_applying(&wl.namespace, &wl.authorization_policies);
        let ghost p = denies(ctx.conn);
        let mut any_allow = false;
        let mut allowed = false;
        let mut i: usize = 0;
        while i < policies.len()
            invariant
                i <= policies.len(),
                policies@ == self.state.policies.applying(
                    ctx.dest_workload.namespace@,
                    ctx.dest_workload.authorization_policies@,
                ),
                p == denies(ctx.conn),
                forall|j: int| 0 <= j < i ==> !p(#[trigger] policies@[j]),
                any_allow == has_allow(policies@.take(i as int)),
                allowed == some_allows(policies@.take(i as int), ctx.conn),
            decreases policies.len() - i,
        {
            let pol = &policies[i];
            let matches = pol.matches(&ctx.conn);
            let ghost before = policies@.take(i as int);
            let ghost after = policies@.take(i + 1);
            proof {
                assert(after[i as int] == policies@[i as int]);
                assert forall|j: int| 0 <= j < i implies #[trigger] after[j] == before[j] by {}
                if has_allow(before) {
                    let j = choose|j: int|
                        0 <= j < before.len() && (#[trigger] before[j]).action == RbacAction::Allow;
                    assert(after[j].action == RbacAction::Allow);
                }
                if some_allows(before, ctx.conn) {
                    let j = choose|j: int|
                        0 <= j < before.len() && (#[trigger] before[j]).action
                            == RbacAction::Allow && before[j].accepts(ctx.conn);
                    assert(after[j].action == RbacAction::Allow && after[j].accepts(ctx.conn));
                }
            }
            if pol.action == RbacAction::Allow {
                any_allow = true;
                if matches {
                    allowed = true;
                }
            } else if matches {
                proof {
                    crate::search::lemma_first_at(policies@, p, i as int);
                }
                return Err(
                    AuthorizationRejectionError::ExplicitlyDenied(
                        pol.namespace.clone(),
                        pol.name.clone(),
                    ),
                );
            }
            i = i + 1;
        }
        proof {
            assert(policies@.take(i as int) =~= policies@);
            crate::search::lemma_first_none(policies@, p);
        }
        if !any_allow || allowed {
            Ok(())
        } else {
            Err(AuthorizationRejectionError::NotAllowed)
        }
    }

    /// Decides how the workload `dst` is connected to, for a connection to
    /// `target`, under the family restriction of the service if there is one.
    pub fn pick_workload_destination_or_resolve(
        &self,
        dst: &Arc<Workload>,
        target: SocketAddress,
        restriction: Option<IpFamily>,
    ) -> (r: Result<WorkloadIp, Error>)
        ensures
            r == workload_ip(*dst, target, restriction),
    {
        // If the user requested the pod by a specific IP, use that directly.
        if dst.has_ip(target.ip) {
            return Ok(WorkloadIp::Ip(target.ip));
        }
        // They may have 1 or 2 IPs (single/dual stack). The family restriction of
        // the service (if any is defined) has to be met. Otherwise, the family of
        // the original request is preferred.
        let ghost p = accepted_by(restriction);
        let mut accepted: Vec<IpAddress> = Vec::new();
        let mut i: usize = 0;
        proof {
            reveal(Seq::filter);
        }
        while i < dst.workload_ips.len()
            invariant
                i <= dst.workload_ips.len(),
                p == accepted_by(restriction),
                accepted@ == dst.workload_ips@.take(i as int).filter(p),
            decreases dst.workload_ips.len() - i,
        {
            proof {
                crate::search::lemma_filter_step(dst.workload_ips@, p, i as int);
            }
            let ip: IpAddress = dst.workload_ips[i];
            let accepts = match restriction {
                Some(f) => f.accepts_ip(ip),
                None => true,
            };
            if accepts {
                accepted.push(ip);
            }
            i = i + 1;
        }
        proof {
            assert(dst.workload_ips@.take(i as int) =~= dst.workload_ips@);
        }
        if let Some(ip) = find_or_first(accepted, target.ip) {
            return Ok(WorkloadIp::Ip(ip));
        }
        if dst.hostname.as_str().is_empty() {
            if dst.network_gateway.is_none() {
                return Err(Error::NoValidDestination(dst.clone()));
            } else {
                // We can route through network gateway
                return Ok(WorkloadIp::ThroughGateway);
            }
        }
        Ok(WorkloadIp::Resolve)
    }

    /// Picks an address out of what the hostname of the workload resolved to; no
    /// answer means that resolving failed. An address is drawn, if possible of
    /// the family of the downstream request: without this, there is trouble in
    /// pure v4 or pure v6 environments.
    pub fn resolve_on_demand_dns(
        &self,
        workload: &Workload,
        target: SocketAddress,
        answer: Option<Vec<IpAddress>>,
    ) -> (r: Result<IpAddress, Error>)
        ensures
            may_resolve(*workload, target, addresses(answer), r),
    {
        resolve_dns(workload, target, answer)
    }

    /// The port of the workload that serves a port of the service.
    pub fn translate_service_port(
        &self,
        endpoint: &Endpoint,
        workload: &Workload,
        service: &Service,
        service_port: u16,
    ) -> (r: Option<u16>)
        ensures
            r == crate::state::translated_port(*endpoint, *workload, *service, service_port),
    {
        translate_port(endpoint, workload, service, service_port)
    }

    /// The step that a wait for a workload takes.
    pub open spec fn waits(self, wl: WorkloadInfo, event: WaitEvent) -> Wait {
        match event {
            WaitEvent::TimedOut => Wait::Done(None),
            _ => match self.state.workloads.by_info(wl) {
                Some(w) => Wait::Done(Some(w)),
                None => Wait::Continue,
            },
        }
    }

    /// A step in waiting for a workload that is known to be on its way. The wait
    /// is over when the workload is known, or when time is up.
    pub fn wait_for_workload(&self, wl: &WorkloadInfo, event: WaitEvent) -> (r: Wait)
        ensures
            r == self.waits(*wl, event),
            r == match event {
                WaitEvent::TimedOut => Wait::Done(None),
                _ => match self.state.workloads.by_info(*wl) {
                    Some(w) => Wait::Done(Some(w)),
                    None => Wait::Continue,
                },
            },
    {
        match event {
            WaitEvent::TimedOut => Wait::Done(None),
            _ => match self.find_by_info(wl) {
                Some(w) => Wait::Done(Some(w)),
                None => Wait::Continue,
            },
        }
    }

    /// Looks up a workload by address. This should never be used to look up the
    /// local workload, only the peer. Since the peer connection may come through
    /// gateways, NAT, etc, it should only ever be treated as a best effort.
    ///
    /// `asked` tells whether the control plane was asked already.
    pub fn fetch_workload_by_address(&self, addr: &NetworkAddress, asked: bool) -> (r: Fetch<
        Arc<Workload>,
    >)
        ensures
            r == self.fetch_by_address(*addr, asked),
            r == Fetch::after(
                self.state.workloads.by_address(*addr),
                self.on_demand,
                asked,
                DemandKey::Address(*addr),
            ),
    {
        let found = self.state.workloads.find_address(addr);
        if found.is_none() && self.supports_on_demand() && !asked {
            return Fetch::Demand(DemandKey::Address(addr.clone()));
        }
        Fetch::Done(found)
    }

    /// Looks up a workload by its UID. `asked` tells whether the control plane
    /// was asked already.
    pub fn fetch_workload_by_uid(&self, uid: &String, asked: bool) -> (r: Fetch<Arc<Workload>>)
        ensures
            r == self.fetch_by_uid(*uid, asked),
            r == Fetch::after(
                self.state.workloads.by_uid(uid@),
                self.on_demand,
                asked,
                DemandKey::Uid(*uid),
            ),
    {
        let found = self.state.workloads.find_uid(uid);
        if found.is_none() && self.supports_on_demand() && !asked {
            return Fetch::Demand(DemandKey::Uid(uid.clone()));
        }
        Fetch::Done(found)
    }

    /// The step that a lookup of a destination takes.
    pub open spec fn fetch(self, dest: Destination, asked: bool) -> Fetch<Address> {
        Fetch::after(
            self.state.at_destination(dest),
            self.on_demand,
            asked,
            match dest {
                Destination::Address(addr) => DemandKey::Address(addr),
                Destination::Hostname(name) => DemandKey::Hostname(name),
            },
        )
    }

    /// The control plane is asked about a destination at most once, and only
    /// where nothing is known of it. What a lookup ends with is what is known
    /// then.
    pub proof fn lemma_fetch(self, dest: Destination, asked: bool)
        ensures
            match self.fetch(dest, asked) {
                Fetch::Demand(_) => self.on_demand && !asked && self.state.at_destination(
                    dest,
                ) is None,
                Fetch::Done(found) => found == self.state.at_destination(dest),
            },
            asked || !self.on_demand || self.state.at_destination(dest) is Some ==> self.fetch(
                dest,
                asked,
            ) is Done,
    {
    }

    /// Looks for either a workload or service by the destination. `asked` tells
    /// whether the control plane was asked already.
    pub fn fetch_destination(&self, dest: &Destination, asked: bool) -> (r: Fetch<Address>)
        ensures
            r == self.fetch(*dest, asked),
    {
        match dest {
            Destination::Address(addr) => self.fetch_address(addr, asked),
            Destination::Hostname(hostname) => self.fetch_hostname(hostname, asked),
        }
    }

    /// Looks for the given address to find either a workload or service by IP.
    /// `asked` tells whether the control plane was asked already.
    pub fn fetch_address(&self, network_addr: &NetworkAddress, asked: bool) -> (r: Fetch<Address>)
        ensures
            r == self.fetch(Destination::Address(*network_addr), asked),
    {
        let found = self.state.find_address(network_addr);
        if found.is_none() && self.supports_on_demand() && !asked {
            return Fetch::Demand(DemandKey::Address(network_addr.clone()));
        }
        Fetch::Done(found)
    }

    /// Looks for the given hostname to find either a workload or service.
    /// `asked` tells whether the control plane was asked already.
    pub fn fetch_hostname(&self, hostname: &NamespacedHostname, asked: bool) -> (r: Fetch<Address>)
        ensures
            r == self.fetch(Destination::Hostname(*hostname), asked),
    {
        let found = self.state.find_hostname(hostname);
        if found.is_none() && self.supports_on_demand() && !asked {
            return Fetch::Demand(DemandKey::Hostname(hostname.clone()));
        }
        Fetch::Done(found)
    }
}

/// The addresses of the family of `like`, and the others.
pub fn by_family(ips: &Vec<IpAddress>, like: IpAddress) -> (r: (Vec<IpAddress>, Vec<IpAddress>))
    ensures
        r.0@ == ips@.filter(crate::order::family_is(like)),
        r.1@ == ips@.filter(crate::order::family_is_not(like)),
{
    let ghost p = crate::order::family_is(like);
    let ghost q = crate::order::family_is_not(like);
    let mut matching: Vec<IpAddress> = Vec::new();
    let mut unmatching: Vec<IpAddress> = Vec::new();
    let mut i: usize = 0;
    proof {
        reveal(Seq::filter);
    }
    while i < ips.len()
        invariant
            i <= ips.len(),
            p == crate::order::family_is(like),
            q == crate::order::family_is_not(like),
            matching@ == ips@.take(i as int).filter(p),
            unmatching@ == ips@.take(i as int).filter(q),
        decreases ips.len() - i,
    {
        proof {
            crate::search::lemma_filter_step(ips@, p, i as int);
            crate::search::lemma_filter_step(ips@, q, i as int);
        }
        let ip: IpAddress = ips[i];
        if ip.is_same_family(&like) {
            matching.push(ip);
        } else {
            unmatching.push(ip);
        }
        i = i + 1;
    }
    proof {
        assert(ips@.take(i as int) =~= ips@);
    }
    (matching, unmatching)
}

/// Every address is of the family of `like`, or among the others.
proof fn lemma_by_family(ips: Seq<IpAddress>, like: IpAddress)
    ensures
        ({
            let matching = ips.filter(crate::order::family_is(like));
            let unmatching = ips.filter(crate::order::family_is_not(like));
            &&& forall|ip: IpAddress|
                #[trigger] matching.contains(ip) ==> ips.contains(ip) && ip.same_family(like)
            &&& forall|ip: IpAddress| #[trigger] unmatching.contains(ip) ==> ips.contains(ip)
            &&& matching.len() > 0 <==> has_family(ips, like)
            &&& matching.len() == 0 && unmatching.len() == 0 <==> ips.len() == 0
        }),
{
    let p = crate::order::family_is(like);
    let q = crate::order::family_is_not(like);
    let matching = ips.filter(p);
    let unmatching = ips.filter(q);
    assert forall|ip: IpAddress| #[trigger] matching.contains(ip) implies ips.contains(ip)
        && ip.same_family(like) by {
        ips.lemma_filter_contains_rev(p, ip);
        let k = choose|k: int| 0 <= k < matching.len() && matching[k] == ip;
        ips.lemma_filter_pred(p, k);
    }
    assert forall|ip: IpAddress| #[trigger] unmatching.contains(ip) implies ips.contains(ip) by {
        ips.lemma_filter_contains_rev(q, ip);
    }
    if matching.len() > 0 {
        assert(matching.contains(matching[0]));
        let k = choose|k: int| 0 <= k < ips.len() && ips[k] == matching[0];
        assert(ips[k].same_family(like));
    }
    if has_family(ips, like) {
        let k = choose|k: int| 0 <= k < ips.len() && (#[trigger] ips[k]).same_family(like);
        ips.lemma_filter_contains(p, k);
    }
    ips.lemma_filter_len(p);
    ips.lemma_filter_len(q);
    if ips.len() > 0 {
        if p(ips[0]) {
            ips.lemma_filter_contains(p, 0);
        } else {
            ips.lemma_filter_contains(q, 0);
        }
    }
}

/// Picks an address out of `answer`, if possible of the family of the target.
pub(crate) fn resolve_dns(
    workload: &Workload,
    target: SocketAddress,
    answer: Option<Vec<IpAddress>>,
) -> (r: Result<IpAddress, Error>)
    ensures
        may_resolve(*workload, target, addresses(answer), r),
{
    let ips = match answer {
        Some(ips) => ips,
        None => return Err(Error::NoResolvedAddresses(workload.uid.clone())),
    };
    let (matching, unmatching) = by_family(&ips, target.ip);
    proof {
        lemma_by_family(ips@, target.ip);
    }
    if let Some(ip) = choose_from(matching) {
        return Ok(ip);
    }
    match choose_from(unmatching) {
        Some(ip) => Ok(ip),
        None => Err(Error::EmptyResolvedAddresses(workload.uid.clone())),
    }
}

} // verus!
