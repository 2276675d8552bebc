//! Addresses and names by which workloads, services and gateways are known.

use vstd::prelude::*;

verus! {

/// An IP address, held as the number it stands for.
#[derive(Clone, Copy, Debug, PartialEq, Eq, PartialOrd, Ord, Hash, Structural)]
pub enum IpAddress {
    V4(u32),
    V6(u128),
}

impl IpAddress {
    /// Whether this is an IPv6 address.
    pub fn is_ipv6(&self) -> (r: bool)
        ensures
            r == (*self is V6),
    {
        match self {
            IpAddress::V4(_) => false,
            IpAddress::V6(_) => true,
        }
    }

    /// Whether both addresses belong to one IP family.
    pub open spec fn same_family(self, other: IpAddress) -> bool {
        self is V6 == other is V6
    }

    /// Whether this address and `other` are both IPv4 or both IPv6.
    pub fn is_same_family(&self, other: &IpAddress) -> (r: bool)
        ensures
            r == self.same_family(*other),
    {
        self.is_ipv6() == other.is_ipv6()
    }
}

/// An IP address with a port. An IPv6 address also has a flow label and a scope;
/// both are zero for an IPv4 address.
#[derive(Clone, Copy, Debug, PartialEq, Eq, PartialOrd, Ord, Hash, Structural)]
pub struct SocketAddress {
    pub ip: IpAddress,
    pub port: u16,
    pub flowinfo: u32,
    pub scope_id: u32,
}

impl SocketAddress {
    /// The address without flow label and scope.
    pub open spec fn plain(ip: IpAddress, port: u16) -> SocketAddress {
        SocketAddress { ip, port, flowinfo: 0, scope_id: 0 }
    }

    /// The address without flow label and scope.
    pub fn new(ip: IpAddress, port: u16) -> (r: SocketAddress)
        ensures
            r == Self::plain(ip, port),
    {
        SocketAddress { ip, port, flowinfo: 0, scope_id: 0 }
    }
}

/// The IP families a service accepts.
#[derive(Clone, Copy, Debug, PartialEq, Eq, Hash, Structural)]
pub enum IpFamily {
    Dual,
    IPv4,
    IPv6,
}

impl IpFamily {
    /// Whether addresses of the family of `ip` are accepted.
    pub open spec fn accepts(self, ip: IpAddress) -> bool {
        match self {
            IpFamily::Dual => true,
            IpFamily::IPv4 => ip is V4,
            IpFamily::IPv6 => ip is V6,
        }
    }

    /// Whether addresses of the family of `ip` are accepted.
    pub fn accepts_ip(&self, ip: IpAddress) -> (r: bool)
        ensures
            r == self.accepts(ip),
    {
        match self {
            IpFamily::Dual => true,
            IpFamily::IPv4 => !ip.is_ipv6(),
            IpFamily::IPv6 => ip.is_ipv6(),
        }
    }
}

/// An IP address within a network.
#[derive(Debug, Eq)]
pub struct NetworkAddress {
    pub network: String,
    pub address: IpAddress,
}

impl NetworkAddress {
    /// Both name the same address in the same network.
    pub open spec fn same(self, other: NetworkAddress) -> bool {
        self.network@ == other.network@ && self.address == other.address
    }
}

impl Clone for NetworkAddress {
    fn clone(&self) -> (r: Self)
        ensures
            r == *self,
    {
        NetworkAddress { network: self.network.clone(), address: self.address }
    }
}

impl PartialEq for NetworkAddress {
    fn eq(&self, other: &Self) -> (r: bool) {
        self.network == other.network && self.address == other.address
    }
}

impl vstd::std_specs::cmp::PartialEqSpecImpl for NetworkAddress {
    open spec fn obeys_eq_spec() -> bool {
        true
    }

    open spec fn eq_spec(&self, other: &Self) -> bool {
        self.same(*other)
    }
}

/// The address `address` in `network`.
pub fn network_addr(network: String, address: IpAddress) -> (r: NetworkAddress)
    ensures
        r.network == network,
        r.address == address,
{
    NetworkAddress { network, address }
}

/// A hostname within a namespace.
#[derive(Debug, Eq)]
pub struct NamespacedHostname {
    pub namespace: String,
    pub hostname: String,
}

impl NamespacedHostname {
    /// Both name the same host in the same namespace.
    pub open spec fn same(self, other: NamespacedHostname) -> bool {
        self.namespace@ == other.namespace@ && self.hostname@ == other.hostname@
    }
}

impl Clone for NamespacedHostname {
    fn clone(&self) -> (r: Self)
        ensures
            r == *self,
    {
        NamespacedHostname { namespace: self.namespace.clone(), hostname: self.hostname.clone() }
    }
}

impl PartialEq for NamespacedHostname {
    fn eq(&self, other: &Self) -> (r: bool) {
        self.namespace == other.namespace && self.hostname == other.hostname
    }
}

impl vstd::std_specs::cmp::PartialEqSpecImpl for NamespacedHostname {
    open spec fn obeys_eq_spec() -> bool {
        true
    }

    open spec fn eq_spec(&self, other: &Self) -> bool {
        self.same(*other)
    }
}

/// How a gateway is referred to. A hostname is preferred, as it is the more
/// stable identifier.
#[derive(Debug, Eq)]
pub enum Destination {
    Address(NetworkAddress),
    Hostname(NamespacedHostname),
}

impl Destination {
    /// Both refer to the same place in the same way.
    pub open spec fn same(self, other: Destination) -> bool {
        match (self, other) {
            (Destination::Address(a), Destination::Address(b)) => a.same(b),
            (Destination::Hostname(a), Destination::Hostname(b)) => a.same(b),
            _ => false,
        }
    }
}

impl Clone for Destination {
    fn clone(&self) -> (r: Self)
        ensures
            r == *self,
    {
        match self {
            Destination::Address(a) => Destination::Address(a.clone()),
            Destination::Hostname(h) => Destination::Hostname(h.clone()),
        }
    }
}

impl PartialEq for Destination {
    fn eq(&self, other: &Self) -> (r: bool) {
        match (self, other) {
            (Destination::Address(a), Destination::Address(b)) => *a == *b,
            (Destination::Hostname(a), Destination::Hostname(b)) => *a == *b,
            _ => false,
        }
    }
}

impl vstd::std_specs::cmp::PartialEqSpecImpl for Destination {
    open spec fn obeys_eq_spec() -> bool {
        true
    }

    open spec fn eq_spec(&self, other: &Self) -> bool {
        self.same(*other)
    }
}

/// A gateway, and the port on which it accepts HBONE over mTLS.
#[derive(Debug, Eq)]
pub struct GatewayAddress {
    pub destination: Destination,
    pub hbone_mtls_port: u16,
}

impl GatewayAddress {
    /// Both are the same gateway at the same port.
    pub open spec fn same(self, other: GatewayAddress) -> bool {
        self.destination.same(other.destination) && self.hbone_mtls_port == other.hbone_mtls_port
    }
}

impl Clone for GatewayAddress {
    fn clone(&self) -> (r: Self)
        ensures
            r == *self,
    {
        GatewayAddress {
            destination: self.destination.clone(),
            hbone_mtls_port: self.hbone_mtls_port,
        }
    }
}

impl PartialEq for GatewayAddress {
    fn eq(&self, other: &Self) -> (r: bool) {
        self.destination == other.destination && self.hbone_mtls_port == other.hbone_mtls_port
    }
}

impl vstd::std_specs::cmp::PartialEqSpecImpl for GatewayAddress {
    open spec fn obeys_eq_spec() -> bool {
        true
    }

    open spec fn eq_spec(&self, other: &Self) -> bool {
        self.same(*other)
    }
}

} // verus!
