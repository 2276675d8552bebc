//! The errors of the library.

use std::sync::Arc;

use vstd::prelude::*;

use crate::address::GatewayAddress;
use crate::resolve::GatewayKind;
use crate::workload::Workload;

verus! {

/// Why a connection is turned away.
#[derive(Debug, PartialEq, Eq)]
pub enum AuthorizationRejectionError {
    /// A deny policy matches: its namespace and its name.
    ExplicitlyDenied(String, String),
    /// There are allow policies, and none matches.
    NotAllowed,
}

/// A gateway that was not found: by its hostname, or as it is configured.
#[derive(Debug, PartialEq, Eq)]
pub enum MissingGateway {
    Hostname(String),
    Gateway(GatewayAddress),
}

/// Why no destination was found.
#[derive(Debug, PartialEq, Eq)]
pub enum Error {
    /// No service has this hostname.
    NoHostname(String),
    /// The workload has no IP address that can be used, no hostname, and no
    /// network gateway.
    NoValidDestination(Arc<Workload>),
    /// The hostname of the workload with this UID could not be resolved.
    NoResolvedAddresses(String),
    /// The hostname of the workload with this UID resolved to no address.
    EmptyResolvedAddresses(String),
    UnknownNetworkGateway(MissingGateway),
    UnknownWaypoint(MissingGateway),
}

/// The message that tells that `what` with the name `name` was not found.
fn not_found(what: &str, name: &str) -> (r: String)
    ensures
        r@ == what@ + " "@ + name@ + " not found"@,
{
    let mut r = what.to_string();
    r.append(" ");
    r.append(name);
    r.append(" not found");
    r
}

impl GatewayKind {
    /// What a gateway of this kind is called.
    pub open spec fn noun(self) -> Seq<char> {
        match self {
            GatewayKind::Network => "network gateway"@,
            GatewayKind::Waypoint => "waypoint"@,
        }
    }
}

/// The message that tells that a gateway of this kind was not found, where
/// `name` is its hostname, or how it is written.
pub fn gateway_not_found(kind: GatewayKind, name: &str) -> (r: String)
    ensures
        r@ == kind.noun() + " "@ + name@ + " not found"@,
{
    match kind {
        GatewayKind::Network => not_found("network gateway", name),
        GatewayKind::Waypoint => not_found("waypoint", name),
    }
}

} // verus!
