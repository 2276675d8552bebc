//! Where a connection goes.

use std::sync::Arc;

use vstd::prelude::*;

use crate::address::{IpAddress, SocketAddress};
use crate::error::Error;
use crate::identity::{Identity, IdentityParts};
use crate::service::ServiceDescription;
use crate::text::clone_strings;
use crate::workload::{InboundProtocol, Workload};

verus! {

/// What an HBONE request is addressed to.
#[derive(Clone, Copy, Debug, PartialEq, Eq)]
pub enum HboneAddress {
    SocketAddr(SocketAddress),
}

/// Where a connection goes.
#[derive(Debug, PartialEq, Eq)]
pub struct Upstream {
    /// The workload that is connected to.
    pub workload: Arc<Workload>,
    /// The IP address to connect to for this workload. It tells apart several
    /// IPs (dual stack), and IPs that a hostname resolved to. Empty where the
    /// connection has to go through a network gateway.
    pub selected_workload_ip: Option<IpAddress>,
    /// The port to connect to.
    pub port: u16,
    /// The SANs defined at the service level *only*. The identity of the workload
    /// belongs to a complete view as well.
    pub service_sans: Vec<String>,
    /// If this was from a service, the service info.
    pub destination_service: Option<ServiceDescription>,
    /// The address that was to be resolved. Where a waypoint is on the way this
    /// is the address of the original target, not that of the waypoint.
    pub original_target: SocketAddress,
    /// Whether the connection is routed through a waypoint.
    pub through_waypoint: bool,
    /// The port to connect to where a proxy is on the other side (no waypoint,
    /// and HBONE).
    pub hbone_port: u16,
}

impl Clone for Upstream {
    fn clone(&self) -> (r: Self)
        ensures
            r.workload == self.workload,
            r.selected_workload_ip == self.selected_workload_ip,
            r.port == self.port,
            r.service_sans@ == self.service_sans@,
            r.destination_service == self.destination_service,
            r.original_target == self.original_target,
            r.through_waypoint == self.through_waypoint,
            r.hbone_port == self.hbone_port,
    {
        Upstream {
            workload: self.workload.clone(),
            selected_workload_ip: self.selected_workload_ip,
            port: self.port,
            service_sans: clone_strings(&self.service_sans),
            destination_service: match &self.destination_service {
                Some(d) => Some(d.clone()),
                None => None,
            },
            original_target: self.original_target,
            through_waypoint: self.through_waypoint,
            hbone_port: self.hbone_port,
        }
    }
}

pub open spec fn parsed_san() -> spec_fn(String) -> Option<IdentityParts> {
    |san: String| IdentityParts::parse(san@)
}

pub open spec fn parts_of() -> spec_fn(Identity) -> IdentityParts {
    |id: Identity| id@
}

impl Upstream {
    /// The address that is connected to.
    pub open spec fn connects_to(self) -> Option<SocketAddress> {
        match self.selected_workload_ip {
            Some(ip) => Some(
                SocketAddress::plain(
                    ip,
                    if self.workload.protocol == InboundProtocol::HBONE && !self.through_waypoint {
                        self.hbone_port
                    } else {
                        self.port
                    },
                ),
            ),
            None => None,
        }
    }

    /// The identities that the SANs of the service stand for.
    pub open spec fn service_identities(self) -> Seq<IdentityParts> {
        self.service_sans@.filter_map(parsed_san())
    }

    /// The identities that the SANs of the service and the workload stand for.
    pub open spec fn identities(self) -> Seq<IdentityParts> {
        self.service_identities().push(
            IdentityParts {
                trust_domain: self.workload.trust_domain@,
                namespace: self.workload.namespace@,
                service_account: self.workload.service_account@,
            },
        )
    }

    /// What the HBONE request is addressed to.
    pub open spec fn hbone_target(self) -> Result<Option<HboneAddress>, Error> {
        if self.through_waypoint {
            Ok(Some(HboneAddress::SocketAddr(self.original_target)))
        } else {
            match (self.workload.protocol, self.selected_workload_ip) {
                (InboundProtocol::HBONE, Some(ip)) => Ok(
                    Some(HboneAddress::SocketAddr(SocketAddress::plain(ip, self.port))),
                ),
                (InboundProtocol::HBONE, None) => Err(Error::NoValidDestination(self.workload)),
                (InboundProtocol::TCP, _) => Ok(None),
            }
        }
    }

    /// The address to connect to. Where a proxy is on the other side it is its
    /// HBONE port, not the target port, that has to be connected to.
    pub fn workload_socket_addr(&self) -> (r: Option<SocketAddress>)
        ensures
            r == self.connects_to(),
            r == match self.selected_workload_ip {
                Some(ip) => Some(
                    SocketAddress::plain(
                        ip,
                        if self.workload.protocol == InboundProtocol::HBONE
                            && !self.through_waypoint {
                            self.hbone_port
                        } else {
                            self.port
                        },
                    ),
                ),
                None => None,
            },
    {
        let port: u16 = if self.workload.protocol == InboundProtocol::HBONE
            && !self.through_waypoint {
            self.hbone_port
        } else {
            self.port
        };
        match self.selected_workload_ip {
            Some(ip) => Some(SocketAddress::new(ip, port)),
            None => None,
        }
    }

    /// The identities that the SANs of the service and the workload stand for.
    /// SANs that are no identity are left out.
    pub fn workload_and_services_san(&self) -> (r: Vec<Identity>)
        ensures
            r@.map_values(parts_of()) == self.identities(),
            r@.map_values(parts_of()) == self.service_sans@.filter_map(parsed_san()).push(
                IdentityParts {
                    trust_domain: self.workload.trust_domain@,
                    namespace: self.workload.namespace@,
                    service_account: self.workload.service_account@,
                },
            ),
    {
        let mut r = self.service_sans();
        let ghost before = r@;
        r.push(self.workload.identity());
        proof {
            assert(r@.map_values(parts_of()) =~= before.map_values(parts_of()).push(
                r@.last()@,
            ));
        }
        r
    }

    /// The identities that the SANs of the service stand for. SANs that are no
    /// identity are left out.
    pub fn service_sans(&self) -> (r: Vec<Identity>)
        ensures
            r@.map_values(parts_of()) == self.service_identities(),
            r@.map_values(parts_of()) == self.service_sans@.filter_map(parsed_san()),
    {
        let ghost f = parsed_san();
        let ghost all = self.service_sans@;
        let mut r: Vec<Identity> = Vec::new();
        let mut i: usize = 0;
        while i < self.service_sans.len()
            invariant
                i <= self.service_sans.len(),
                all == self.service_sans@,
                f == parsed_san(),
                r@.map_values(parts_of()) == all.take(i as int).filter_map(f),
            decreases self.service_sans.len() - i,
        {
            let ghost before = r@;
            proof {
                all.lemma_filter_map_take_succ(f, i as int);
            }
            match Identity::parse(&self.service_sans[i]) {
                Some(id) => {
                    r.push(id);
                    proof {
                        assert(r@.map_values(parts_of()) =~= before.map_values(parts_of()).push(
                            id@,
                        ));
                    }
                },
                None => {},
            }
            i = i + 1;
        }
        proof {
            assert(all.take(i as int) =~= all);
        }
        r
    }

    /// What the HBONE request is addressed to, where there is one.
    ///
    /// Through a waypoint the original target is preserved. Otherwise a request
    /// over HBONE goes to the proxy of the workload, and the address of the
    /// workload is the target; one over TCP is no HBONE request to begin with.
    ///
    /// What goes to another network through a gateway is for the caller to
    /// handle: it is addressed by the hostname of the target service, and the
    /// protocol of the gateway does not tell of it.
    pub fn hbone_target_destination(&self) -> (r: Result<Option<HboneAddress>, Error>)
        ensures
            r == self.hbone_target(),
            r == if self.through_waypoint {
                Ok::<Option<HboneAddress>, Error>(
                    Some(HboneAddress::SocketAddr(self.original_target)),
                )
            } else {
                match (self.workload.protocol, self.selected_workload_ip) {
                    (InboundProtocol::HBONE, Some(ip)) => Ok(
                        Some(HboneAddress::SocketAddr(SocketAddress::plain(ip, self.port))),
                    ),
                    (InboundProtocol::HBONE, None) => Err(
                        Error::NoValidDestination(self.workload),
                    ),
                    (InboundProtocol::TCP, _) => Ok(None),
                }
            },
    {
        if self.through_waypoint {
            return Ok(Some(HboneAddress::SocketAddr(self.original_target)));
        }
        match self.workload.protocol {
            InboundProtocol::HBONE => match self.selected_workload_ip {
                Some(ip) => Ok(
                    Some(HboneAddress::SocketAddr(SocketAddress::new(ip, self.port))),
                ),
                None => Err(Error::NoValidDestination(self.workload.clone())),
            },
            InboundProtocol::TCP => Ok(None),
        }
    }
}

} // verus!
