//! Authorization policies, and the connections they are held against.
//!
//! A policy is a list of rules of which any may match; a rule is a list of
//! clauses which must all match; a clause is a list of matches of which any may
//! hold.

use vstd::prelude::*;

use crate::address::{IpAddress, SocketAddress};
use crate::identity::Identity;
use crate::text::{ends_with, starts_with};

verus! {

/// A pattern for a text.
#[derive(Debug, PartialEq, Eq, Hash)]
pub enum StringMatch {
    Prefix(String),
    Suffix(String),
    Exact(String),
    Presence,
}

impl StringMatch {
    /// The pattern holds of `t`.
    pub open spec fn accepts(self, t: Seq<char>) -> bool {
        match self {
            StringMatch::Prefix(p) => p@.is_prefix_of(t),
            StringMatch::Suffix(p) => p@.is_suffix_of(t),
            StringMatch::Exact(p) => p@ == t,
            StringMatch::Presence => t.len() > 0,
        }
    }

    /// Some pattern of `ms` holds of the text; where there is no text, none does.
    pub open spec fn any_accepts(ms: Seq<StringMatch>, t: Option<Seq<char>>) -> bool {
        t is Some && exists|i: int| 0 <= i < ms.len() && (#[trigger] ms[i]).accepts(t->0)
    }

    /// Whether the pattern holds of `t`.
    pub fn matches(&self, t: &String) -> (r: bool)
        ensures
            r == self.accepts(t@),
    {
        match self {
            StringMatch::Prefix(p) => starts_with(t, p),
            StringMatch::Suffix(p) => ends_with(t, p),
            StringMatch::Exact(p) => *p == *t,
            StringMatch::Presence => !t.as_str().is_empty(),
        }
    }

    /// Whether some pattern of `ms` holds of the text.
    fn any_matches(ms: &Vec<StringMatch>, t: &Option<String>) -> (r: bool)
        ensures
            r == Self::any_accepts(
                ms@,
                match *t {
                    Some(t) => Some(t@),
                    None => None,
                },
            ),
    {
        let text = match t {
            Some(text) => text,
            None => return false,
        };
        let mut i: usize = 0;
        while i < ms.len()
            invariant
                *t == Some(*text),
                i <= ms.len(),
                forall|j: int| 0 <= j < i ==> !(#[trigger] ms@[j]).accepts(text@),
            decreases ms.len() - i,
        {
            if ms[i].matches(text) {
                assert(ms@[i as int].accepts(text@));
                return true;
            }
            i = i + 1;
        }
        false
    }
}

/// The addresses that agree with `address` in their first `prefix_len` bits.
#[derive(Clone, Copy, Debug, PartialEq, Eq, Hash)]
pub struct IpBlock {
    pub address: IpAddress,
    pub prefix_len: u8,
}

impl IpBlock {
    /// Two numbers of `width` bits agree in their first `len` bits; where `len`
    /// is larger than `width`, in all of them.
    pub open spec fn agree(a: nat, b: nat, width: nat, len: nat) -> bool {
        let low: nat = if len < width {
            (width - len) as nat
        } else {
            0
        };
        a / vstd::arithmetic::power2::pow2(low) == b / vstd::arithmetic::power2::pow2(low)
    }

    /// `ip` is of the block's family and inside the block.
    pub open spec fn contains(self, ip: IpAddress) -> bool {
        match (self.address, ip) {
            (IpAddress::V4(a), IpAddress::V4(b)) => Self::agree(
                a as nat,
                b as nat,
                32,
                self.prefix_len as nat,
            ),
            (IpAddress::V6(a), IpAddress::V6(b)) => Self::agree(
                a as nat,
                b as nat,
                128,
                self.prefix_len as nat,
            ),
            _ => false,
        }
    }

    /// Some block of `bs` holds the address.
    pub open spec fn any_contains(bs: Seq<IpBlock>, ip: IpAddress) -> bool {
        exists|i: int| 0 <= i < bs.len() && (#[trigger] bs[i]).contains(ip)
    }

    /// Whether `ip` lies in the block.
    pub fn contains_ip(&self, ip: IpAddress) -> (r: bool)
        ensures
            r == self.contains(ip),
    {
        match (self.address, ip) {
            (IpAddress::V4(a), IpAddress::V4(b)) => {
                if self.prefix_len == 0 {
                    proof {
                        vstd::arithmetic::power2::lemma2_to64();
                        vstd::arithmetic::div_mod::lemma_basic_div(a as int, vstd::arithmetic::power2::pow2(32) as int);
                        vstd::arithmetic::div_mod::lemma_basic_div(b as int, vstd::arithmetic::power2::pow2(32) as int);
                    }
                    true
                } else if self.prefix_len >= 32 {
                    proof {
                        vstd::arithmetic::power2::lemma2_to64();
                    }
                    a == b
                } else {
                    let low: u32 = 32 - self.prefix_len as u32;
                    proof {
                        vstd::bits::lemma_u32_shr_is_div(a, low);
                        vstd::bits::lemma_u32_shr_is_div(b, low);
                    }
                    (a >> low) == (b >> low)
                }
            },
            (IpAddress::V6(a), IpAddress::V6(b)) => {
                if self.prefix_len == 0 {
                    proof {
                        vstd::arithmetic::power2::lemma2_to64();
                        vstd::arithmetic::power2::lemma_pow2_adds(64, 64);
                        assert(vstd::arithmetic::power2::pow2(128) == 0x1_0000_0000_0000_0000_0000_0000_0000_0000);
                        vstd::arithmetic::div_mod::lemma_basic_div(a as int, vstd::arithmetic::power2::pow2(128) as int);
                        vstd::arithmetic::div_mod::lemma_basic_div(b as int, vstd::arithmetic::power2::pow2(128) as int);
                    }
                    true
                } else if self.prefix_len >= 128 {
                    proof {
                        vstd::arithmetic::power2::lemma2_to64();
                    }
                    a == b
                } else {
                    let low: u128 = 128 - self.prefix_len as u128;
                    proof {
                        vstd::bits::lemma_u128_shr_is_div(a, low);
                        vstd::bits::lemma_u128_shr_is_div(b, low);
                    }
                    (a >> low) == (b >> low)
                }
            },
            _ => false,
        }
    }

    /// Whether some block of `bs` holds the address.
    fn any_contains_ip(bs: &Vec<IpBlock>, ip: IpAddress) -> (r: bool)
        ensures
            r == Self::any_contains(bs@, ip),
    {
        let mut i: usize = 0;
        while i < bs.len()
            invariant
                i <= bs.len(),
                forall|j: int| 0 <= j < i ==> !(#[trigger] bs@[j]).contains(ip),
            decreases bs.len() - i,
        {
            if bs[i].contains_ip(ip) {
                return true;
            }
            i = i + 1;
        }
        false
    }
}

/// A connection that asks to be let in.
#[derive(Debug, Eq)]
pub struct Connection {
    pub src_identity: Option<Identity>,
    pub src: SocketAddress,
    pub dst_network: String,
    pub dst: SocketAddress,
}

impl Connection {
    /// The principal that connects, where it has an identity.
    pub open spec fn principal(self) -> Option<Seq<char>> {
        match self.src_identity {
            Some(id) => Some(id@.principal()),
            None => None,
        }
    }

    /// The namespace of the identity that connects.
    pub open spec fn namespace(self) -> Option<Seq<char>> {
        match self.src_identity {
            Some(id) => Some(id@.namespace),
            None => None,
        }
    }
}

impl Connection {
    /// Both are one connection: all that they tell is equal.
    pub open spec fn same(self, other: Connection) -> bool {
        &&& match (self.src_identity, other.src_identity) {
            (Some(a), Some(b)) => a@ == b@,
            (None, None) => true,
            _ => false,
        }
        &&& self.src == other.src
        &&& self.dst_network@ == other.dst_network@
        &&& self.dst == other.dst
    }
}

impl PartialEq for Connection {
    fn eq(&self, other: &Self) -> (r: bool) {
        let same_identity = match (&self.src_identity, &other.src_identity) {
            (Some(a), Some(b)) => *a == *b,
            (None, None) => true,
            _ => false,
        };
        same_identity && self.src == other.src && self.dst_network == other.dst_network && self.dst
            == other.dst
    }
}

impl vstd::std_specs::cmp::PartialEqSpecImpl for Connection {
    open spec fn obeys_eq_spec() -> bool {
        true
    }

    open spec fn eq_spec(&self, other: &Self) -> bool {
        self.same(*other)
    }
}

impl Clone for Connection {
    fn clone(&self) -> (r: Self)
        ensures
            r == *self,
    {
        Connection {
            src_identity: match &self.src_identity {
                Some(id) => Some(id.clone()),
                None => None,
            },
            src: self.src,
            dst_network: self.dst_network.clone(),
            dst: self.dst,
        }
    }
}

/// What a connection must have, and must not have, for a match to hold. An
/// empty list asks nothing.
#[derive(Debug, Default, PartialEq, Eq, Hash)]
pub struct RbacMatch {
    pub namespaces: Vec<StringMatch>,
    pub not_namespaces: Vec<StringMatch>,
    pub principals: Vec<StringMatch>,
    pub not_principals: Vec<StringMatch>,
    pub source_ips: Vec<IpBlock>,
    pub not_source_ips: Vec<IpBlock>,
    pub destination_ips: Vec<IpBlock>,
    pub not_destination_ips: Vec<IpBlock>,
    pub destination_ports: Vec<u16>,
    pub not_destination_ports: Vec<u16>,
}

impl RbacMatch {
    /// The match holds of the connection: every list that asks something has an
    /// entry that the connection meets, and no excluded one is met.
    pub open spec fn accepts(self, conn: Connection) -> bool {
        &&& self.namespaces@.len() == 0 || StringMatch::any_accepts(
            self.namespaces@,
            conn.namespace(),
        )
        &&& !StringMatch::any_accepts(self.not_namespaces@, conn.namespace())
        &&& self.principals@.len() == 0 || StringMatch::any_accepts(
            self.principals@,
            conn.principal(),
        )
        &&& !StringMatch::any_accepts(self.not_principals@, conn.principal())
        &&& self.source_ips@.len() == 0 || IpBlock::any_contains(self.source_ips@, conn.src.ip)
        &&& !IpBlock::any_contains(self.not_source_ips@, conn.src.ip)
        &&& self.destination_ips@.len() == 0 || IpBlock::any_contains(
            self.destination_ips@,
            conn.dst.ip,
        )
        &&& !IpBlock::any_contains(self.not_destination_ips@, conn.dst.ip)
        &&& self.destination_ports@.len() == 0 || self.destination_ports@.contains(conn.dst.port)
        &&& !self.not_destination_ports@.contains(conn.dst.port)
    }

    /// Whether the match holds of the connection.
    pub fn matches(&self, conn: &Connection) -> (r: bool)
        ensures
            r == self.accepts(*conn),
    {
        let principal: Option<String> = match &conn.src_identity {
            Some(id) => Some(id.principal()),
            None => None,
        };
        let namespace: Option<String> = match &conn.src_identity {
            Some(Identity::Spiffe { trust_domain: _, namespace, service_account: _ }) => Some(
                namespace.clone(),
            ),
            None => None,
        };
        (self.namespaces.len() == 0 || StringMatch::any_matches(&self.namespaces, &namespace))
            && !StringMatch::any_matches(&self.not_namespaces, &namespace) && (
        self.principals.len() == 0 || StringMatch::any_matches(&self.principals, &principal))
            && !StringMatch::any_matches(&self.not_principals, &principal) && (
        self.source_ips.len() == 0 || IpBlock::any_contains_ip(&self.source_ips, conn.src.ip))
            && !IpBlock::any_contains_ip(&self.not_source_ips, conn.src.ip) && (
        self.destination_ips.len() == 0 || IpBlock::any_contains_ip(
            &self.destination_ips,
            conn.dst.ip,
        )) && !IpBlock::any_contains_ip(&self.not_destination_ips, conn.dst.ip) && (
        self.destination_ports.len() == 0 || has_port(&self.destination_ports, conn.dst.port))
            && !has_port(&self.not_destination_ports, conn.dst.port)
    }
}

/// Whether `port` is among `ports`.
fn has_port(ports: &Vec<u16>, port: u16) -> (r: bool)
    ensures
        r == ports@.contains(port),
{
    let mut i: usize = 0;
    while i < ports.len()
        invariant
            i <= ports.len(),
            forall|j: int| 0 <= j < i ==> ports@[j] != port,
        decreases ports.len() - i,
    {
        if ports[i] == port {
            return true;
        }
        i = i + 1;
    }
    false
}

/// What a matching policy does with a connection.
#[derive(Clone, Copy, Debug, PartialEq, Eq, Hash, Structural)]
pub enum RbacAction {
    Allow,
    Deny,
}

/// To which workloads a policy applies.
#[derive(Clone, Copy, Debug, PartialEq, Eq, Hash, Structural)]
pub enum RbacScope {
    /// All workloads.
    Global,
    /// The workloads of the policy's namespace.
    Namespace,
    /// The workloads that name the policy.
    WorkloadSelector,
}

/// An authorization policy.
#[derive(Debug, PartialEq, Eq, Hash)]
pub struct Authorization {
    pub name: String,
    pub namespace: String,
    pub scope: RbacScope,
    pub action: RbacAction,
    pub rules: Vec<Vec<Vec<RbacMatch>>>,
}

impl Authorization {
    /// Some match of the clause holds.
    pub open spec fn clause_accepts(clause: Seq<RbacMatch>, conn: Connection) -> bool {
        exists|i: int| 0 <= i < clause.len() && (#[trigger] clause[i]).accepts(conn)
    }

    /// Every clause of the rule holds.
    pub open spec fn rule_accepts(rule: Seq<Vec<RbacMatch>>, conn: Connection) -> bool {
        forall|i: int|
            0 <= i < rule.len() ==> Self::clause_accepts((#[trigger] rule[i])@, conn)
    }

    /// Some rule of the policy holds of the connection.
    pub open spec fn accepts(self, conn: Connection) -> bool {
        exists|i: int|
            0 <= i < self.rules@.len() && Self::rule_accepts((#[trigger] self.rules@[i])@, conn)
    }

    fn clause_matches(clause: &Vec<RbacMatch>, conn: &Connection) -> (r: bool)
        ensures
            r == Self::clause_accepts(clause@, *conn),
    {
        let mut i: usize = 0;
        while i < clause.len()
            invariant
                i <= clause.len(),
                forall|j: int| 0 <= j < i ==> !(#[trigger] clause@[j]).accepts(*conn),
            decreases clause.len() - i,
        {
            if clause[i].matches(conn) {
                return true;
            }
            i = i + 1;
        }
        false
    }

    fn rule_matches(rule: &Vec<Vec<RbacMatch>>, conn: &Connection) -> (r: bool)
        ensures
            r == Self::rule_accepts(rule@, *conn),
    {
        let mut i: usize = 0;
        while i < rule.len()
            invariant
                i <= rule.len(),
                forall|j: int|
                    0 <= j < i ==> Self::clause_accepts((#[trigger] rule@[j])@, *conn),
            decreases rule.len() - i,
        {
            if !Self::clause_matches(&rule[i], conn) {
                return false;
            }
            i = i + 1;
        }
        true
    }

    /// Whether the policy matches the connection. A policy without rules
    /// matches none.
    pub fn matches(&self, conn: &Connection) -> (r: bool)
        ensures
            r == self.accepts(*conn),
    {
        let mut i: usize = 0;
        while i < self.rules.len()
            invariant
                i <= self.rules.len(),
                forall|j: int|
                    0 <= j < i ==> !Self::rule_accepts((#[trigger] self.rules@[j])@, *conn),
            decreases self.rules.len() - i,
        {
            if Self::rule_matches(&self.rules[i], conn) {
                return true;
            }
            i = i + 1;
        }
        false
    }
}

} // verus!
