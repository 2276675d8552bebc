//! The authorization policies that are known.

use std::sync::Arc;

use vstd::prelude::*;

use crate::rbac::{Authorization, RbacScope};

verus! {

/// A policy with the key it is known by.
#[derive(Debug)]
pub struct KeyedPolicy {
    pub key: String,
    pub policy: Arc<Authorization>,
}

impl KeyedPolicy {
    /// The policy applies to all workloads of the namespace `ns`. The empty
    /// namespace stands for all workloads there are.
    pub open spec fn covers(self, ns: Seq<char>) -> bool {
        match self.policy.scope {
            RbacScope::Global => ns.len() == 0,
            RbacScope::Namespace => self.policy.namespace@ == ns,
            RbacScope::WorkloadSelector => false,
        }
    }
}

/// The authorization policies that are known, by their keys.
#[derive(Debug)]
pub struct PolicyStore {
    pub policies: Vec<KeyedPolicy>,
}

impl PolicyStore {
    /// No two policies share a key.
    pub open spec fn wf(self) -> bool {
        forall|i: int, j: int|
            0 <= i < j < self.policies@.len() ==> (#[trigger] self.policies@[i]).key@ != (
            #[trigger] self.policies@[j]).key@
    }

    pub open spec fn key_is(key: Seq<char>) -> spec_fn(KeyedPolicy) -> bool {
        |p: KeyedPolicy| p.key@ == key
    }

    pub open spec fn key_is_not(key: Seq<char>) -> spec_fn(KeyedPolicy) -> bool {
        |p: KeyedPolicy| p.key@ != key
    }

    /// The key of a policy that covers `ns`.
    pub open spec fn covering(ns: Seq<char>) -> spec_fn(KeyedPolicy) -> Option<String> {
        |p: KeyedPolicy|
            if p.covers(ns) {
                Some(p.key)
            } else {
                None
            }
    }

    /// The policy with this key.
    pub open spec fn by_key(self, key: Seq<char>) -> Option<Arc<Authorization>> {
        match crate::search::first(self.policies@, Self::key_is(key)) {
            Some(p) => Some(p.policy),
            None => None,
        }
    }

    /// Looks up keys in this store.
    pub open spec fn lookup(self) -> spec_fn(String) -> Option<Arc<Authorization>> {
        |key: String| self.by_key(key@)
    }

    /// The keys of the policies that cover `ns`.
    pub open spec fn keys_of(self, ns: Seq<char>) -> Seq<String> {
        self.policies@.filter_map(Self::covering(ns))
    }

    /// The policies that apply to a workload of the namespace `ns` that names
    /// policies by the keys `named`: first those of its namespace, then those of
    /// all namespaces, then those it names. A key of which no policy is known
    /// counts for nothing.
    pub open spec fn applying(self, ns: Seq<char>, named: Seq<String>) -> Seq<Arc<Authorization>> {
        (self.keys_of(ns) + self.keys_of(Seq::empty()) + named).filter_map(self.lookup())
    }

    /// A store without policies.
    pub fn new() -> (r: Self)
        ensures
            r.wf(),
            r.policies@.len() == 0,
    {
        PolicyStore { policies: Vec::new() }
    }

    /// Where the policy with this key stands.
    fn position(&self, key: &String) -> (r: Option<usize>)
        ensures
            match r {
                Some(i) => i < self.policies@.len() && self.policies@[i as int].key@ == key@ && (
                forall|j: int| 0 <= j < i ==> (#[trigger] self.policies@[j]).key@ != key@),
                None => forall|j: int|
                    0 <= j < self.policies@.len() ==> (#[trigger] self.policies@[j]).key@ != key@,
            },
    {
        let mut i: usize = 0;
        while i < self.policies.len()
            invariant
                i <= self.policies.len(),
                forall|j: int| 0 <= j < i ==> (#[trigger] self.policies@[j]).key@ != key@,
            decreases self.policies.len() - i,
        {
            if self.policies[i].key == *key {
                return Some(i);
            }
            i = i + 1;
        }
        None
    }

    /// `after` is this store with the policy added, in place of the one with its
    /// key if there is one.
    pub open spec fn gains(self, added: KeyedPolicy, after: Self) -> bool {
        after.policies@ == self.policies@.filter(Self::key_is_not(added.key@)).push(added)
    }

    /// Adds a policy, in place of the one with its key if there is one.
    pub fn insert(&mut self, key: String, policy: Authorization)
        requires
            old(self).wf(),
        ensures
            old(self).gains(
                (KeyedPolicy { key, policy: Arc::new(policy) }),
                *final(self),
            ),
            final(self).wf(),
            final(self).policies@ == old(self).policies@.filter(Self::key_is_not(key@)).push(
                (KeyedPolicy { key, policy: Arc::new(policy) }),
            ),
    {
        let ghost p = Self::key_is_not(key@);
        match self.position(&key) {
            Some(i) => {
                proof {
                    crate::search::lemma_filter_but(self.policies@, p, i as int);
                }
                self.policies.remove(i);
            },
            None => {
                proof {
                    crate::search::lemma_filter_all(self.policies@, p);
                }
            },
        }
        self.policies.push(KeyedPolicy { key, policy: Arc::new(policy) });
    }

    /// A policy that was inserted is the one with its key, and the policies with
    /// other keys are what they were.
    pub proof fn lemma_insert(before: Self, after: Self, added: KeyedPolicy)
        requires
            after.policies@ == before.policies@.filter(Self::key_is_not(added.key@)).push(added),
        ensures
            forall|key: Seq<char>|
                #[trigger] after.by_key(key) == if key == added.key@ {
                    Some(added.policy)
                } else {
                    before.by_key(key)
                },
    {
        let all = before.policies@;
        let p = Self::key_is_not(added.key@);
        assert forall|key: Seq<char>| #[trigger] after.by_key(key) == (if key == added.key@ {
            Some(added.policy)
        } else {
            before.by_key(key)
        }) by {
            let q = Self::key_is(key);
            crate::search::lemma_first_push(all.filter(p), added, q);
            if key == added.key@ {
                assert forall|j: int| 0 <= j < all.filter(p).len() implies !q(
                    #[trigger] all.filter(p)[j],
                ) by {
                    all.lemma_filter_pred(p, j);
                }
                crate::search::lemma_first_none(all.filter(p), q);
            } else {
                crate::search::lemma_first_is(all, q);
                crate::search::lemma_first_filter(all, p, q);
            }
        }
    }

    /// The policy at `i` is found by its key.
    proof fn lemma_by_key(self, i: int)
        requires
            self.wf(),
            0 <= i < self.policies@.len(),
        ensures
            self.by_key(self.policies@[i].key@) == Some(self.policies@[i].policy),
    {
        crate::search::lemma_first_at(
            self.policies@,
            Self::key_is(self.policies@[i].key@),
            i,
        );
    }

    /// Some policy of the store is `p`, and applies to a workload of the
    /// namespace `ns` that names policies by the keys `named`: through the
    /// namespace, because it covers all, or by its name.
    pub open spec fn applies(self, ns: Seq<char>, named: Seq<String>, p: Arc<Authorization>) -> bool {
        exists|i: int|
            {
                &&& 0 <= i < self.policies@.len()
                &&& (#[trigger] self.policies@[i]).policy == p
                &&& self.policies@[i].covers(ns) || self.policies@[i].covers(Seq::empty())
                    || exists|j: int|
                    0 <= j < named.len() && (#[trigger] named[j])@ == self.policies@[i].key@
            }
    }

    /// The policies that apply to a workload are those of its namespace, those
    /// of all namespaces, and those it names; no others.
    pub proof fn lemma_applying(self, ns: Seq<char>, named: Seq<String>, p: Arc<Authorization>)
        requires
            self.wf(),
        ensures
            self.applying(ns, named).contains(p) <==> self.applies(ns, named, p),
    {
        let of_ns = self.keys_of(ns);
        let of_all = self.keys_of(Seq::empty());
        let keys = of_ns + of_all + named;
        let all = self.policies@;
        if self.applying(ns, named).contains(p) {
            keys.lemma_filter_map_contains(self.lookup(), p);
            let key = choose|key: String|
                #[trigger] keys.contains(key) && self.lookup()(key) == Some(p);
            let k = choose|k: int| 0 <= k < keys.len() && keys[k] == key;
            crate::search::lemma_first_is(all, Self::key_is(key@));
            if k < of_ns.len() {
                assert(of_ns[k] == key);
                self.lemma_key_of(ns, key);
            } else if k < of_ns.len() + of_all.len() {
                assert(of_all[k - of_ns.len()] == key);
                self.lemma_key_of(Seq::empty(), key);
            } else {
                let j = k - of_ns.len() - of_all.len();
                assert(named[j] == key);
                let found = crate::search::first(all, Self::key_is(key@))->0;
                let i = choose|i: int| 0 <= i < all.len() && all[i] == found;
                assert(all[i].key@ == named[j]@);
            }
        }
        if self.applies(ns, named, p) {
            let i = choose|i: int|
                {
                    &&& 0 <= i < all.len()
                    &&& (#[trigger] all[i]).policy == p
                    &&& all[i].covers(ns) || all[i].covers(Seq::empty()) || exists|j: int|
                        0 <= j < named.len() && (#[trigger] named[j])@ == all[i].key@
                };
            self.lemma_by_key(i);
            if all[i].covers(ns) {
                crate::search::lemma_filter_map_has(all, Self::covering(ns), i);
                let k = choose|k: int| 0 <= k < of_ns.len() && of_ns[k] == all[i].key;
                assert(keys[k] == all[i].key);
                crate::search::lemma_filter_map_has(keys, self.lookup(), k);
            } else if all[i].covers(Seq::empty()) {
                crate::search::lemma_filter_map_has(all, Self::covering(Seq::empty()), i);
                let k = choose|k: int| 0 <= k < of_all.len() && of_all[k] == all[i].key;
                assert(keys[of_ns.len() + k] == all[i].key);
                crate::search::lemma_filter_map_has(keys, self.lookup(), of_ns.len() + k);
            } else {
                let j = choose|j: int|
                    0 <= j < named.len() && (#[trigger] named[j])@ == all[i].key@;
                let k = of_ns.len() + of_all.len() + j;
                assert(keys[k] == named[j]);
                crate::search::lemma_filter_map_has(keys, self.lookup(), k);
            }
        }
    }

    /// A key of a namespace is that of a policy which covers it.
    proof fn lemma_key_of(self, ns: Seq<char>, key: String)
        requires
            self.wf(),
            self.keys_of(ns).contains(key),
        ensures
            exists|i: int|
                0 <= i < self.policies@.len() && (#[trigger] self.policies@[i]).covers(ns)
                    && self.by_key(key@) == Some(self.policies@[i].policy),
    {
        let all = self.policies@;
        all.lemma_filter_map_contains(Self::covering(ns), key);
        let t = choose|t: KeyedPolicy|
            #[trigger] all.contains(t) && Self::covering(ns)(t) == Some(key);
        let i = choose|i: int| 0 <= i < all.len() && all[i] == t;
        self.lemma_by_key(i);
        assert(all[i].covers(ns));
    }

    /// A policy that comes of the keys of a namespace covers it.
    pub proof fn lemma_covered(self, ns: Seq<char>, p: Arc<Authorization>)
        requires
            self.wf(),
            self.keys_of(ns).filter_map(self.lookup()).contains(p),
        ensures
            exists|i: int|
                0 <= i < self.policies@.len() && (#[trigger] self.policies@[i]).covers(ns)
                    && self.policies@[i].policy == p,
    {
        let keys = self.keys_of(ns);
        keys.lemma_filter_map_contains(self.lookup(), p);
        let key = choose|key: String|
            #[trigger] keys.contains(key) && self.lookup()(key) == Some(p);
        self.lemma_key_of(ns, key);
    }

    /// A key of which no policy is known counts for nothing, wherever it stands.
    pub proof fn lemma_unknown_key(self, ns: Seq<char>, named: Seq<String>, i: int, key: String)
        requires
            0 <= i <= named.len(),
            self.by_key(key@) is None,
        ensures
            self.applying(ns, named.insert(i, key)) == self.applying(ns, named),
    {
        let f = self.lookup();
        let before = self.keys_of(ns) + self.keys_of(Seq::empty()) + named.take(i);
        let after = named.skip(i);
        let keys = self.keys_of(ns) + self.keys_of(Seq::empty());
        assert(keys + named =~= before + after);
        assert(keys + named.insert(i, key) =~= before.push(key) + after);
        crate::search::lemma_filter_map_add(before, after, f);
        crate::search::lemma_filter_map_add(before.push(key), after, f);
        assert(before.push(key).drop_last() =~= before);
    }

    /// The policy with this key.
    pub fn get(&self, key: &String) -> (r: Option<Arc<Authorization>>)
        ensures
            r == self.by_key(key@),
    {
        match self.position(key) {
            Some(i) => {
                proof {
                    crate::search::lemma_first_at(self.policies@, Self::key_is(key@), i as int);
                }
                Some(self.policies[i].policy.clone())
            },
            None => {
                proof {
                    crate::search::lemma_first_none(self.policies@, Self::key_is(key@));
                }
                None
            },
        }
    }

    /// The keys of the policies that cover a namespace; for the empty one, of
    /// those that cover all.
    pub fn get_by_namespace(&self, ns: &String) -> (r: Vec<String>)
        ensures
            r@ == self.keys_of(ns@),
    {
        let ghost all = self.policies@;
        let ghost f = Self::covering(ns@);
        let mut keys: Vec<String> = Vec::new();
        let mut i: usize = 0;
        while i < self.policies.len()
            invariant
                i <= self.policies.len(),
                all == self.policies@,
                f == Self::covering(ns@),
                keys@ == all.take(i as int).filter_map(f),
            decreases self.policies.len() - i,
        {
            proof {
                all.lemma_filter_map_take_succ(f, i as int);
            }
            let p = &self.policies[i];
            let covers = match p.policy.scope {
                RbacScope::Global => ns.as_str().is_empty(),
                RbacScope::Namespace => p.policy.namespace == *ns,
                RbacScope::WorkloadSelector => false,
            };
            if covers {
                keys.push(p.key.clone());
            }
            i = i + 1;
        }
        proof {
            assert(all.take(i as int) =~= all);
        }
        keys
    }

    /// The policies that `keys` are known by, in their order; unknown keys are
    /// skipped.
    fn get_all(&self, keys: &Vec<String>) -> (r: Vec<Arc<Authorization>>)
        ensures
            r@ == keys@.filter_map(self.lookup()),
    {
        let ghost f = self.lookup();
        let mut found: Vec<Arc<Authorization>> = Vec::new();
        let mut i: usize = 0;
        while i < keys.len()
            invariant
                i <= keys.len(),
                f == self.lookup(),
                found@ == keys@.take(i as int).filter_map(f),
            decreases keys.len() - i,
        {
            proof {
                keys@.lemma_filter_map_take_succ(f, i as int);
            }
            match self.get(&keys[i]) {
                Some(p) => found.push(p),
                None => {},
            }
            i = i + 1;
        }
        proof {
            assert(keys@.take(i as int) =~= keys@);
        }
        found
    }

    /// The policies that apply to a workload of the namespace `ns` that names
    /// policies by the keys `named`: first those of its namespace, then those of
    /// all namespaces, then those it names.
    pub fn get_applying(&self, ns: &String, named: &Vec<String>) -> (r: Vec<Arc<Authorization>>)
        ensures
            r@ == self.applying(ns@, named@),
    {
        let mut keys = self.get_by_namespace(ns);
        let mut global = self.get_by_namespace(&String::new());
        keys.append(&mut global);
        let mut i: usize = 0;
        while i < named.len()
            invariant
                i <= named.len(),
                keys@ == self.keys_of(ns@) + self.keys_of(Seq::empty()) + named@.take(i as int),
            decreases named.len() - i,
        {
            keys.push(named[i].clone());
            i = i + 1;
            proof {
                assert(named@.take(i as int) =~= named@.take(i - 1).push(named@[i - 1]));
            }
        }
        proof {
            assert(named@.take(i as int) =~= named@);
        }
        self.get_all(&keys)
    }
}

} // verus!
