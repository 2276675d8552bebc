//! SPIFFE identities of workloads.

use vstd::prelude::*;

use crate::text::{join, starts_with};

verus! {

/// The identity of a workload.
#[derive(Debug, Eq)]
pub enum Identity {
    Spiffe { trust_domain: String, namespace: String, service_account: String },
}

impl Clone for Identity {
    fn clone(&self) -> (r: Self)
        ensures
            r == *self,
    {
        match self {
            Identity::Spiffe { trust_domain, namespace, service_account } => Identity::Spiffe {
                trust_domain: trust_domain.clone(),
                namespace: namespace.clone(),
                service_account: service_account.clone(),
            },
        }
    }
}

/// The texts an identity is made of.
pub struct IdentityParts {
    pub trust_domain: Seq<char>,
    pub namespace: Seq<char>,
    pub service_account: Seq<char>,
}

impl IdentityParts {
    /// The identity as principals are written:
    /// `<trust domain>/ns/<namespace>/sa/<service account>`.
    pub open spec fn principal(self) -> Seq<char> {
        self.trust_domain + ("/ns/"@ + (self.namespace + ("/sa/"@ + self.service_account)))
    }

    /// The identity as a SPIFFE URI.
    pub open spec fn uri(self) -> Seq<char> {
        "spiffe://"@ + self.principal()
    }

    /// No part holds a slash, so that the URI can be taken apart again.
    pub open spec fn slash_free(self) -> bool {
        &&& !self.trust_domain.contains('/')
        &&& !self.namespace.contains('/')
        &&& !self.service_account.contains('/')
    }

    /// `s` is the URI of the identity with these parts.
    pub open spec fn written_as(self, s: Seq<char>) -> bool {
        self.slash_free() && s == self.uri()
    }

    /// The parts of the identity that `s` is the URI of, if it is one.
    pub open spec fn parse(s: Seq<char>) -> Option<IdentityParts> {
        if exists|p: IdentityParts| p.written_as(s) {
            Some(choose|p: IdentityParts| p.written_as(s))
        } else {
            None
        }
    }
}

impl View for Identity {
    type V = IdentityParts;

    open spec fn view(&self) -> IdentityParts {
        match self {
            Identity::Spiffe { trust_domain, namespace, service_account } => IdentityParts {
                trust_domain: trust_domain@,
                namespace: namespace@,
                service_account: service_account@,
            },
        }
    }
}

impl PartialEq for Identity {
    fn eq(&self, other: &Self) -> (r: bool) {
        match (self, other) {
            (
                Identity::Spiffe { trust_domain: a, namespace: b, service_account: c },
                Identity::Spiffe { trust_domain: d, namespace: e, service_account: f },
            ) => *a == *d && *b == *e && *c == *f,
        }
    }
}

impl vstd::std_specs::cmp::PartialEqSpecImpl for Identity {
    open spec fn obeys_eq_spec() -> bool {
        true
    }

    open spec fn eq_spec(&self, other: &Self) -> bool {
        self@ == other@
    }
}

/// A slash-free text that is followed by a slash ends at the first slash.
proof fn lemma_first_slash(s: Seq<char>, a: int, head: Seq<char>, tail: Seq<char>)
    requires
        s == head + tail,
        !head.contains('/'),
        tail.len() > 0,
        tail[0] == '/',
        0 <= a <= s.len(),
        forall|j: int| 0 <= j < a ==> s[j] != '/',
        a < s.len() ==> s[a] == '/',
    ensures
        a == head.len(),
        s.subrange(0, a) == head,
        s.subrange(a, s.len() as int) == tail,
{
    assert(s[head.len() as int] == tail[0]);
    if a < head.len() {
        assert(s[a] == head[a]);
        assert(head.contains(head[a]));
    }
    assert(s.subrange(0, a) =~= head);
    assert(s.subrange(a, s.len() as int) =~= tail);
}

/// A URI is that of one identity only.
pub proof fn lemma_uri_unique(p: IdentityParts, q: IdentityParts)
    requires
        p.slash_free(),
        q.slash_free(),
        p.uri() == q.uri(),
    ensures
        p == q,
{
    reveal_strlit("spiffe://");
    reveal_strlit("/ns/");
    reveal_strlit("/sa/");
    let n = p.uri().len() as int;
    assert(p.uri().subrange(9, n) =~= p.principal());
    assert(q.uri().subrange(9, n) =~= q.principal());
    let s = p.principal();
    let pt = "/ns/"@ + (p.namespace + ("/sa/"@ + p.service_account));
    let qt = "/ns/"@ + (q.namespace + ("/sa/"@ + q.service_account));
    assert(s[p.trust_domain.len() as int] == '/');
    assert forall|j: int| 0 <= j < p.trust_domain.len() implies s[j] != '/' by {
        assert(s[j] == p.trust_domain[j]);
        assert(p.trust_domain.contains(p.trust_domain[j]));
    }
    lemma_first_slash(s, p.trust_domain.len() as int, q.trust_domain, qt);
    assert(s.subrange(0, p.trust_domain.len() as int) =~= p.trust_domain);
    assert(s.subrange(p.trust_domain.len() as int, s.len() as int) =~= pt);
    let m = pt.subrange(4, pt.len() as int);
    assert(m =~= p.namespace + ("/sa/"@ + p.service_account));
    assert(m =~= q.namespace + ("/sa/"@ + q.service_account));
    let sa = "/sa/"@ + p.service_account;
    assert(m[p.namespace.len() as int] == '/');
    assert forall|j: int| 0 <= j < p.namespace.len() implies m[j] != '/' by {
        assert(m[j] == p.namespace[j]);
        assert(p.namespace.contains(p.namespace[j]));
    }
    lemma_first_slash(m, p.namespace.len() as int, q.namespace, "/sa/"@ + q.service_account);
    assert(m.subrange(0, p.namespace.len() as int) =~= p.namespace);
    assert(m.subrange(p.namespace.len() as int, m.len() as int) =~= sa);
    assert(sa.subrange(4, sa.len() as int) =~= p.service_account);
    assert(("/sa/"@ + q.service_account).subrange(4, sa.len() as int) =~= q.service_account);
}

/// The URI of an identity whose parts hold no slash is parsed as that identity.
pub proof fn lemma_parse_uri(p: IdentityParts)
    requires
        p.slash_free(),
    ensures
        IdentityParts::parse(p.uri()) == Some(p),
{
    assert(p.written_as(p.uri()));
    let q = choose|q: IdentityParts| q.written_as(p.uri());
    lemma_uri_unique(p, q);
}

/// Where the first slash of `s` is, or the length of `s` where it has none.
fn first_slash(s: &str) -> (a: usize)
    ensures
        a <= s@.len(),
        forall|j: int| 0 <= j < a ==> s@[j] != '/',
        a < s@.len() ==> s@[a as int] == '/',
{
    let n: usize = s.unicode_len();
    let mut i: usize = 0;
    while i < n
        invariant
            n == s@.len(),
            i <= n,
            forall|j: int| 0 <= j < i ==> s@[j] != '/',
        decreases n - i,
    {
        if s.get_char(i) == '/' {
            return i;
        }
        i = i + 1;
    }
    n
}

/// What stands behind `prefix` in `s`, if `s` begins with it.
fn strip_prefix(s: &String, prefix: &String) -> (r: Option<String>)
    ensures
        match r {
            Some(rest) => s@ == prefix@ + rest@,
            None => !prefix@.is_prefix_of(s@),
        },
{
    if starts_with(s, prefix) {
        let n: usize = prefix.as_str().unicode_len();
        let len: usize = s.as_str().unicode_len();
        let rest = s.as_str().substring_char(n, len).to_string();
        assert(s@ =~= prefix@ + rest@);
        Some(rest)
    } else {
        None
    }
}

/// `s` taken apart before its first slash.
fn split_slash(s: &String) -> (r: (String, String))
    ensures
        s@ == r.0@ + r.1@,
        !r.0@.contains('/'),
        r.1@.len() > 0 ==> r.1@[0] == '/',
        forall|head: Seq<char>, tail: Seq<char>|
            #![trigger head + tail]
            s@ == head + tail && !head.contains('/') && tail.len() > 0 && tail[0] == '/'
                ==> r.0@ == head && r.1@ == tail,
{
    let a: usize = first_slash(s.as_str());
    let len: usize = s.as_str().unicode_len();
    let head = s.as_str().substring_char(0, a).to_string();
    let tail = s.as_str().substring_char(a, len).to_string();
    assert(s@ =~= head@ + tail@);
    proof {
        assert forall|h: Seq<char>, t: Seq<char>|
            #![trigger h + t]
            s@ == h + t && !h.contains('/') && t.len() > 0 && t[0] == '/' implies head@ == h
            && tail@ == t by {
            lemma_first_slash(s@, a as int, h, t);
        }
    }
    (head, tail)
}

impl Identity {
    /// The identity that `s` is the SPIFFE URI of, if it is one:
    /// `spiffe://<trust domain>/ns/<namespace>/sa/<service account>`, where no
    /// part holds a slash.
    pub fn parse(s: &String) -> (r: Option<Identity>)
        ensures
            match r {
                Some(id) => IdentityParts::parse(s@) == Some(id@),
                None => IdentityParts::parse(s@) is None,
            },
    {
        proof {
            reveal_strlit("spiffe://");
            reveal_strlit("/ns/");
            reveal_strlit("/sa/");
        }
        let body = match strip_prefix(s, &"spiffe://".to_string()) {
            Some(body) => body,
            None => {
                proof {
                    assert forall|p: IdentityParts| !p.written_as(s@) by {
                        assert(p.uri().subrange(0, 9) =~= "spiffe://"@);
                    }
                }
                return None;
            },
        };
        proof {
            assert forall|p: IdentityParts| p.written_as(s@) implies p.principal() == body@ by {
                assert(p.uri().subrange(9, s@.len() as int) =~= p.principal());
                assert(s@.subrange(9, s@.len() as int) =~= body@);
            }
        }
        let (trust_domain, rest) = split_slash(&body);
        let rest = match strip_prefix(&rest, &"/ns/".to_string()) {
            Some(rest) => rest,
            None => {
                proof {
                    assert forall|p: IdentityParts| !p.written_as(s@) by {
                        let t = "/ns/"@ + (p.namespace + ("/sa/"@ + p.service_account));
                        assert(t.subrange(0, 4) =~= "/ns/"@);
                        assert(t[0] == '/');
                        assert(p.principal() == p.trust_domain + t);
                    }
                }
                return None;
            },
        };
        proof {
            assert forall|p: IdentityParts| p.written_as(s@) implies p.trust_domain == trust_domain@
                && rest@ == p.namespace + ("/sa/"@ + p.service_account) by {
                let u = p.namespace + ("/sa/"@ + p.service_account);
                let t = "/ns/"@ + u;
                assert(t[0] == '/');
                assert(p.principal() == p.trust_domain + t);
                assert(t.subrange(4, t.len() as int) =~= u);
                assert(("/ns/"@ + rest@).subrange(4, t.len() as int) =~= rest@);
            }
        }
        let (namespace, rest2) = split_slash(&rest);
        let service_account = match strip_prefix(&rest2, &"/sa/".to_string()) {
            Some(service_account) => service_account,
            None => {
                proof {
                    assert forall|p: IdentityParts| !p.written_as(s@) by {
                        let t = "/sa/"@ + p.service_account;
                        assert(t.subrange(0, 4) =~= "/sa/"@);
                        assert(t[0] == '/');
                        assert(p.written_as(s@) ==> rest@ == p.namespace + t);
                    }
                }
                return None;
            },
        };
        proof {
            assert forall|p: IdentityParts| p.written_as(s@) implies p.namespace == namespace@
                && p.service_account == service_account@ by {
                let t = "/sa/"@ + p.service_account;
                assert(t[0] == '/');
                assert(rest@ == p.namespace + t);
                assert(t.subrange(4, t.len() as int) =~= p.service_account);
                assert(("/sa/"@ + service_account@).subrange(4, t.len() as int)
                    =~= service_account@);
            }
        }
        let end: usize = first_slash(service_account.as_str());
        if end < service_account.as_str().unicode_len() {
            proof {
                assert(service_account@.contains(service_account@[end as int]));
            }
            return None;
        }
        let id = Identity::Spiffe { trust_domain, namespace, service_account };
        proof {
            assert(!id@.service_account.contains('/'));
            assert(id@.principal() =~= body@);
            assert(id@.written_as(s@));
            lemma_parse_uri(id@);
        }
        Some(id)
    }

    /// The identity as principals are written.
    pub fn principal(&self) -> (r: String)
        ensures
            r@ == self@.principal(),
    {
        match self {
            Identity::Spiffe { trust_domain, namespace, service_account } => {
                let sa = join("/sa/", service_account.as_str());
                let ns = join(namespace.as_str(), sa.as_str());
                let rest = join("/ns/", ns.as_str());
                join(trust_domain.as_str(), rest.as_str())
            },
        }
    }
}

} // verus!
