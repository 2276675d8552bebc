//! The state in the form in which it is shown: sorted, so that the same state is
//! always shown in the same way.

use std::sync::Arc;

use vstd::prelude::*;

use crate::order::sorted_by_key;
use crate::policy::KeyedPolicy;
use crate::service::{Service, StagedService};
use crate::state::ProxyState;
use crate::workload::Workload;

verus! {

pub open spec fn keyed<T>(key: spec_fn(T) -> Seq<char>, k: Seq<char>) -> spec_fn(T) -> bool {
    |t: T| key(t) == k
}

/// `r` holds the items of `given` so that no key comes behind a larger one, and
/// so that the items with one key keep their order.
pub open spec fn in_order<T>(key: spec_fn(T) -> Seq<char>, given: Seq<T>, r: Seq<T>) -> bool {
    &&& r.len() == given.len()
    &&& forall|i: int, j: int|
        0 <= i < j < r.len() ==> crate::text::text_le(
            key(#[trigger] r[i]),
            key(#[trigger] r[j]),
        )
    &&& forall|k: Seq<char>|
        #![trigger r.filter(keyed(key, k))]
        r.filter(keyed(key, k)) == given.filter(keyed(key, k))
}

pub open spec fn uid_of() -> spec_fn(Arc<Workload>) -> Seq<char> {
    |w: Arc<Workload>| w.uid@
}

pub open spec fn hostname_of() -> spec_fn(Arc<Service>) -> Seq<char> {
    |s: Arc<Service>| s.hostname@
}

pub open spec fn key_of() -> spec_fn(KeyedPolicy) -> Seq<char> {
    |p: KeyedPolicy| p.key@
}

/// All that is known, in a fixed order.
#[derive(Debug)]
pub struct ProxyStateSerialization<'a> {
    /// Workloads all have a UID, so that is their key.
    pub workloads: Vec<Arc<Workload>>,
    /// Services all have a hostname, so that is their key.
    pub services: Vec<Arc<Service>>,
    pub policies: Vec<KeyedPolicy>,
    pub staged_services: &'a Vec<StagedService>,
}

/// Two lists have the same items of each key, in the same order; the keys may
/// come in any order.
pub open spec fn alike<T>(key: spec_fn(T) -> Seq<char>, a: Seq<T>, b: Seq<T>) -> bool {
    forall|k: Seq<char>|
        #![trigger a.filter(keyed(key, k))]
        #![trigger b.filter(keyed(key, k))]
        a.filter(keyed(key, k)) == b.filter(keyed(key, k))
}

/// Lists that are alike become the same list in order.
pub proof fn lemma_in_order<T>(
    key: spec_fn(T) -> Seq<char>,
    a: Seq<T>,
    b: Seq<T>,
    r: Seq<T>,
    s: Seq<T>,
)
    requires
        alike(key, a, b),
        in_order(key, a, r),
        in_order(key, b, s),
    ensures
        r == s,
{
    assert forall|k: Seq<char>|
        #![trigger r.filter(keyed(key, k))]
        #![trigger s.filter(keyed(key, k))]
        r.filter(keyed(key, k)) == s.filter(keyed(key, k)) by {
        assert(a.filter(keyed(key, k)) == b.filter(keyed(key, k)));
    }
    lemma_sorted(key, r, s);
}

/// No key comes behind a larger one.
spec fn sorted<T>(key: spec_fn(T) -> Seq<char>, s: Seq<T>) -> bool {
    forall|i: int, j: int|
        0 <= i < j < s.len() ==> crate::text::text_le(
            key(#[trigger] s[i]),
            key(#[trigger] s[j]),
        )
}

/// The key of the last item of `r` does not come behind that of `s`.
proof fn lemma_last_key<T>(key: spec_fn(T) -> Seq<char>, r: Seq<T>, s: Seq<T>)
    requires
        sorted(key, s),
        alike(key, r, s),
        r.len() > 0,
    ensures
        s.len() > 0,
        key(r.last()) == key(s.last()) || crate::text::text_le(key(r.last()), key(s.last())),
{
    let p = keyed(key, key(r.last()));
    let end = r.len() - 1;
    r.lemma_filter_contains(p, end);
    assert(r.filter(p) == s.filter(p));
    s.lemma_filter_contains_rev(p, r[end]);
    let i = choose|i: int| 0 <= i < s.len() && s[i] == r[end];
    assert(s[s.len() - 1] == s.last());
}

/// Sorted lists that are alike are equal.
proof fn lemma_sorted<T>(key: spec_fn(T) -> Seq<char>, r: Seq<T>, s: Seq<T>)
    requires
        sorted(key, r),
        sorted(key, s),
        alike(key, r, s),
    ensures
        r == s,
    decreases r.len(),
{
    if s.len() > 0 {
        lemma_last_key(key, s, r);
    }
    if r.len() > 0 {
        lemma_last_key(key, r, s);
        let k = key(r.last());
        if k != key(s.last()) {
            crate::text::lemma_text_le_antisymmetric(k, key(s.last()));
        }
        let (t, u) = (r.drop_last(), s.drop_last());
        reveal(Seq::filter);
        assert(r.filter(keyed(key, k)) == s.filter(keyed(key, k)));
        assert(r.filter(keyed(key, k)).last() == r.last());
        assert(s.filter(keyed(key, k)).last() == s.last());
        assert forall|l: Seq<char>|
            #![trigger t.filter(keyed(key, l))]
            #![trigger u.filter(keyed(key, l))]
            t.filter(keyed(key, l)) == u.filter(keyed(key, l)) by {
            assert(r.filter(keyed(key, l)) == s.filter(keyed(key, l)));
            if l == k {
                assert(t.filter(keyed(key, l)) =~= r.filter(keyed(key, l)).drop_last());
                assert(u.filter(keyed(key, l)) =~= s.filter(keyed(key, l)).drop_last());
            }
        }
        lemma_sorted(key, t, u);
        assert(r =~= t.push(r.last()));
        assert(s =~= u.push(s.last()));
    } else {
        assert(r =~= s);
    }
}

impl ProxyState {
    /// `r` shows all that is known.
    pub open spec fn is_shown_as(self, r: ProxyStateSerialization) -> bool {
        &&& in_order(uid_of(), self.workloads.workloads@, r.workloads@)
        &&& in_order(hostname_of(), self.services.services@, r.services@)
        &&& in_order(key_of(), self.policies.policies@, r.policies@)
        &&& *r.staged_services == self.services.staged_services
    }

    /// States with the same workloads, the same services of each hostname, and
    /// the same policies are shown in the same way, in whatever order they came
    /// to be known.
    pub proof fn lemma_shown_alike(
        self,
        other: ProxyState,
        a: ProxyStateSerialization,
        b: ProxyStateSerialization,
    )
        requires
            self.is_shown_as(a),
            other.is_shown_as(b),
            alike(uid_of(), self.workloads.workloads@, other.workloads.workloads@),
            alike(hostname_of(), self.services.services@, other.services.services@),
            alike(key_of(), self.policies.policies@, other.policies.policies@),
            self.services.staged_services == other.services.staged_services,
        ensures
            a.workloads@ == b.workloads@,
            a.services@ == b.services@,
            a.policies@ == b.policies@,
            a.staged_services == b.staged_services,
    {
        lemma_in_order(
            uid_of(),
            self.workloads.workloads@,
            other.workloads.workloads@,
            a.workloads@,
            b.workloads@,
        );
        lemma_in_order(
            hostname_of(),
            self.services.services@,
            other.services.services@,
            a.services@,
            b.services@,
        );
        lemma_in_order(
            key_of(),
            self.policies.policies@,
            other.policies.policies@,
            a.policies@,
            b.policies@,
        );
    }

    /// All that is known, in a fixed order.
    pub fn serializable(&self) -> (r: ProxyStateSerialization<'_>)
        ensures
            self.is_shown_as(r),
    {
        let mut workloads: Vec<(String, Arc<Workload>)> = Vec::new();
        let mut i: usize = 0;
        while i < self.workloads.workloads.len()
            invariant
                i <= self.workloads.workloads.len(),
                workloads@.len() == i,
                forall|j: int|
                    0 <= j < i ==> (#[trigger] workloads@[j]).1 == self.workloads.workloads@[j]
                        && workloads@[j].0@ == self.workloads.workloads@[j].uid@,
            decreases self.workloads.workloads.len() - i,
        {
            let wl = &self.workloads.workloads[i];
            workloads.push((wl.uid.clone(), wl.clone()));
            i = i + 1;
        }
        let mut services: Vec<(String, Arc<Service>)> = Vec::new();
        i = 0;
        while i < self.services.services.len()
            invariant
                i <= self.services.services.len(),
                services@.len() == i,
                forall|j: int|
                    0 <= j < i ==> (#[trigger] services@[j]).1 == self.services.services@[j]
                        && services@[j].0@ == self.services.services@[j].hostname@,
            decreases self.services.services.len() - i,
        {
            let svc = &self.services.services[i];
            services.push((svc.hostname.clone(), svc.clone()));
            i = i + 1;
        }
        let mut policies: Vec<(String, KeyedPolicy)> = Vec::new();
        i = 0;
        while i < self.policies.policies.len()
            invariant
                i <= self.policies.policies.len(),
                policies@.len() == i,
                forall|j: int|
                    0 <= j < i ==> (#[trigger] policies@[j]).1 == self.policies.policies@[j]
                        && policies@[j].0@ == self.policies.policies@[j].key@,
            decreases self.policies.policies.len() - i,
        {
            let p = &self.policies.policies[i];
            policies.push(
                (p.key.clone(), KeyedPolicy { key: p.key.clone(), policy: p.policy.clone() }),
            );
            i = i + 1;
        }
        proof {
            assert(seconds(workloads@) =~= self.workloads.workloads@);
            assert(seconds(services@) =~= self.services.services@);
            assert(seconds(policies@) =~= self.policies.policies@);
        }
        ProxyStateSerialization {
            workloads: ordered(workloads, Ghost(uid_of())),
            services: ordered(services, Ghost(hostname_of())),
            policies: ordered(policies, Ghost(key_of())),
            staged_services: &self.services.staged_services,
        }
    }
}

/// The second parts of the items.
spec fn seconds<T>(items: Seq<(String, T)>) -> Seq<T> {
    items.map_values(|item: (String, T)| item.1)
}

/// Every item is paired with its key.
spec fn paired<T>(key: spec_fn(T) -> Seq<char>, items: Seq<(String, T)>) -> bool {
    forall|i: int| 0 <= i < items.len() ==> (#[trigger] items[i]).0@ == key(items[i].1)
}

/// Filtering by the paired keys is filtering by the keys.
proof fn lemma_filter_paired<T>(
    key: spec_fn(T) -> Seq<char>,
    items: Seq<(String, T)>,
    k: Seq<char>,
)
    requires
        paired(key, items),
    ensures
        seconds(items).filter(keyed(key, k)) == seconds(
            items.filter(crate::order::key_is::<T>(k)),
        ),
    decreases items.len(),
{
    reveal(Seq::filter);
    if items.len() > 0 {
        let rest = items.drop_last();
        assert(paired(key, rest)) by {
            assert forall|i: int| 0 <= i < rest.len() implies (#[trigger] rest[i]).0@ == key(
                rest[i].1,
            ) by {
                assert(rest[i] == items[i]);
            }
        }
        lemma_filter_paired(key, rest, k);
        assert(seconds(items).drop_last() =~= seconds(rest));
        assert(items[items.len() - 1].0@ == key(items[items.len() - 1].1));
        assert(seconds(items).last() == items.last().1);
        assert(seconds(items).filter(keyed(key, k)) =~= seconds(
            items.filter(crate::order::key_is::<T>(k)),
        ));
    }
}

/// The items without their keys, in the order of their keys.
fn ordered<T>(items: Vec<(String, T)>, Ghost(key): Ghost<spec_fn(T) -> Seq<char>>) -> (r: Vec<T>)
    requires
        paired(key, items@),
    ensures
        in_order(key, seconds(items@), r@),
{
    let ghost given = items@;
    let sorted = sorted_by_key(items);
    let ghost s = sorted@;
    let mut r: Vec<T> = Vec::new();
    for item in it: sorted
        invariant
            it.seq() == s,
            r@ =~= seconds(s.take(it.index() as int)),
    {
        r.push(item.1);
    }
    proof {
        assert(s.take(s.len() as int) =~= s);
        assert(paired(key, s)) by {
            assert forall|i: int| 0 <= i < s.len() implies (#[trigger] s[i]).0@ == key(s[i].1) by {
                let p = crate::order::key_is::<T>(s[i].0@);
                assert(s.contains(s[i]));
                s.lemma_filter_contains_rev(p, s[i]);
                given.lemma_filter_contains_rev(p, s[i]);
            }
        }
        assert forall|k: Seq<char>| #![trigger r@.filter(keyed(key, k))]
            r@.filter(keyed(key, k)) == seconds(given).filter(keyed(key, k)) by {
            lemma_filter_paired(key, s, k);
            lemma_filter_paired(key, given, k);
            assert(s.filter(crate::order::key_is::<T>(k)) == given.filter(
                crate::order::key_is::<T>(k),
            ));
        }
    }
    r
}

} // verus!
