//! Picking one endpoint out of those that a service could be reached at.

use std::sync::Arc;

use vstd::prelude::*;

use crate::random::{choose_ref, choose_weighted};
use crate::service::{Endpoint, LoadBalancerMode, LoadBalancerScopes, Service};
use crate::workload::Workload;

verus! {

/// A workload that could be connected to.
#[derive(Debug)]
pub struct Candidate {
    pub workload: Arc<Workload>,
    /// The waypoint service that the workload belongs to; nothing where it
    /// serves the target itself.
    pub waypoint: Option<Arc<Service>>,
    pub endpoint: Arc<Endpoint>,
    pub port: u16,
}

impl Clone for Candidate {
    fn clone(&self) -> (r: Self)
        ensures
            r == *self,
    {
        Candidate {
            workload: self.workload.clone(),
            waypoint: match &self.waypoint {
                Some(w) => Some(w.clone()),
                None => None,
            },
            endpoint: self.endpoint.clone(),
            port: self.port,
        }
    }
}

impl Candidate {
    pub open spec fn uid_is(uid: Seq<char>) -> spec_fn(Candidate) -> bool {
        |c: Candidate| c.workload.uid@ == uid
    }

    pub open spec fn cluster_is(id: Seq<char>) -> spec_fn(Candidate) -> bool {
        |c: Candidate| c.workload.cluster_id@ == id
    }

    /// Some candidate of `s` is of the workload with this UID.
    pub open spec fn has_uid(s: Seq<Candidate>, uid: Seq<char>) -> bool {
        exists|i: int| 0 <= i < s.len() && (#[trigger] s[i]).workload.uid@ == uid
    }

    /// No two candidates of `s` are of one workload.
    pub open spec fn distinct(s: Seq<Candidate>) -> bool {
        forall|i: int, j: int|
            0 <= i < j < s.len() ==> (#[trigger] s[i]).workload.uid@ != (
            #[trigger] s[j]).workload.uid@
    }

    /// Two lists have the same candidates, in whatever order.
    pub open spec fn same_items(s: Seq<Candidate>, t: Seq<Candidate>) -> bool {
        forall|c: Candidate|
            #![trigger s.contains(c)]
            #![trigger t.contains(c)]
            s.contains(c) <==> t.contains(c)
    }

    /// The candidates of `s` that come before every other one of their workload.
    pub open spec fn firsts(s: Seq<Candidate>) -> Seq<Candidate>
        decreases s.len(),
    {
        if s.len() == 0 {
            s
        } else {
            let f = Self::firsts(s.drop_last());
            if Self::has_uid(s.drop_last(), s.last().workload.uid@) {
                f
            } else {
                f.push(s.last())
            }
        }
    }

    /// The candidate of the same workload as `c` that comes last in `s`.
    pub open spec fn newest_like(s: Seq<Candidate>) -> spec_fn(Candidate) -> Candidate {
        |c: Candidate| crate::search::last(s, Self::uid_is(c.workload.uid@))->0
    }

    /// One candidate for each workload of `s`, the one that comes last.
    pub open spec fn newest(s: Seq<Candidate>) -> Seq<Candidate> {
        Self::firsts(s).map_values(Self::newest_like(s))
    }

    /// `firsts` has the workloads of the list, each once.
    pub(crate) proof fn lemma_firsts(s: Seq<Candidate>)
        ensures
            forall|i: int| 0 <= i < Self::firsts(s).len() ==> s.contains(#[trigger] Self::firsts(s)[i]),
            forall|uid: Seq<char>| Self::has_uid(s, uid) ==> #[trigger] Self::has_uid(Self::firsts(s), uid),
            forall|i: int, j: int|
                0 <= i < j < Self::firsts(s).len() ==> (#[trigger] Self::firsts(s)[i]).workload.uid@
                    != (#[trigger] Self::firsts(s)[j]).workload.uid@,
        decreases s.len(),
    {
        if s.len() > 0 {
            let t = s.drop_last();
            let ft = Self::firsts(t);
            let fs = Self::firsts(s);
            Self::lemma_firsts(t);
            assert forall|i: int| 0 <= i < fs.len() implies s.contains(#[trigger] fs[i]) by {
                if i < ft.len() {
                    assert(t.contains(ft[i]));
                    let k = choose|k: int| 0 <= k < t.len() && t[k] == ft[i];
                    assert(s[k] == fs[i]);
                } else {
                    assert(s[s.len() - 1] == fs[i]);
                }
            }
            assert forall|uid: Seq<char>| Self::has_uid(s, uid) implies #[trigger] Self::has_uid(
                fs,
                uid,
            ) by {
                if Self::has_uid(t, uid) {
                    assert(Self::has_uid(ft, uid));
                    let k = choose|k: int| 0 <= k < ft.len() && (#[trigger] ft[k]).workload.uid@ == uid;
                    assert(fs[k] == ft[k]);
                } else {
                    let k = choose|k: int| 0 <= k < s.len() && (#[trigger] s[k]).workload.uid@ == uid;
                    if k < t.len() {
                        assert(t[k] == s[k]);
                    }
                    assert(fs[fs.len() - 1] == s[k]);
                }
            }
            assert forall|i: int, j: int| 0 <= i < j < fs.len() implies (
            #[trigger] fs[i]).workload.uid@ != (#[trigger] fs[j]).workload.uid@ by {
                if j == ft.len() {
                    assert(t.contains(ft[i]));
                    let k = choose|k: int| 0 <= k < t.len() && t[k] == ft[i];
                    assert(t[k].workload.uid@ == fs[i].workload.uid@);
                }
            }
        }
    }

    /// `newest` tells of the workloads of `firsts`, in their order.
    pub(crate) proof fn lemma_newest(s: Seq<Candidate>)
        ensures
            Self::newest(s).len() == Self::firsts(s).len(),
            forall|i: int|
                0 <= i < Self::newest(s).len() ==> (#[trigger] Self::newest(s)[i]).workload.uid@
                    == Self::firsts(s)[i].workload.uid@ && s.contains(Self::newest(s)[i]),
    {
        Self::lemma_firsts(s);
        assert forall|i: int| 0 <= i < Self::newest(s).len() implies (
        #[trigger] Self::newest(s)[i]).workload.uid@ == Self::firsts(s)[i].workload.uid@
            && s.contains(Self::newest(s)[i]) by {
            let c = Self::firsts(s)[i];
            assert(s.contains(c));
            let k = choose|k: int| 0 <= k < s.len() && s[k] == c;
            let p = Self::uid_is(c.workload.uid@);
            assert(p(s[k]));
            crate::search::lemma_last_is(s, p);
        }
    }

    /// What one more candidate changes: it stands in place of the one of its
    /// workload, or behind all others.
    proof fn lemma_push(s: Seq<Candidate>, c: Candidate)
        ensures
            ({
                let t = s.push(c);
                if Self::has_uid(s, c.workload.uid@) {
                    &&& Self::firsts(t) == Self::firsts(s)
                    &&& forall|i: int|
                        0 <= i < Self::newest(s).len() && (
                        #[trigger] Self::newest(s)[i]).workload.uid@ == c.workload.uid@
                            ==> Self::newest(t) == Self::newest(s).update(i, c)
                } else {
                    &&& Self::firsts(t) == Self::firsts(s).push(c)
                    &&& Self::newest(t) == Self::newest(s).push(c)
                }
            }),
    {
        let t = s.push(c);
        let uid = c.workload.uid@;
        assert(t.drop_last() =~= s);
        Self::lemma_firsts(s);
        Self::lemma_newest(s);
        let fs = Self::firsts(s);
        assert forall|u: Seq<char>| #[trigger]
            crate::search::last(t, Self::uid_is(u)) == (if u == uid {
                Some(c)
            } else {
                crate::search::last(s, Self::uid_is(u))
            }) by {}
        if Self::has_uid(s, uid) {
            assert forall|i: int|
                0 <= i < Self::newest(s).len() && (#[trigger] Self::newest(s)[i]).workload.uid@
                    == uid implies Self::newest(t) == Self::newest(s).update(i, c) by {
                assert forall|j: int| 0 <= j < fs.len() implies #[trigger] Self::newest(t)[j]
                    == Self::newest(s).update(i, c)[j] by {
                    if j != i {
                        assert(fs[i].workload.uid@ != fs[j].workload.uid@);
                    }
                }
                assert(Self::newest(t) =~= Self::newest(s).update(i, c));
            }
        } else {
            assert forall|j: int| 0 <= j < fs.len() implies #[trigger] Self::newest(t)[j]
                == Self::newest(s)[j] by {
                assert(s.contains(fs[j]));
                let k = choose|k: int| 0 <= k < s.len() && s[k] == fs[j];
                assert(s[k].workload.uid@ != uid);
            }
            assert(Self::newest(t) =~= Self::newest(s).push(c));
        }
    }

    /// The sum of the capacities of the candidates.
    pub open spec fn total_capacity(s: Seq<Candidate>) -> nat
        decreases s.len(),
    {
        if s.len() == 0 {
            0
        } else {
            Self::total_capacity(s.drop_last()) + s.last().workload.capacity as nat
        }
    }

    /// A draw by capacity among the candidates of `s` comes out with one.
    pub open spec fn drawable(s: Seq<Candidate>) -> bool {
        0 < Self::total_capacity(s) <= u64::MAX
    }

    /// The candidates are all of waypoints, or all of the target service.
    pub open spec fn uniform(f: Seq<Candidate>) -> bool {
        let firsts = Self::firsts(f);
        (exists|i: int| 0 <= i < firsts.len() && (#[trigger] firsts[i]).waypoint is Some) != (
        exists|i: int| 0 <= i < firsts.len() && (#[trigger] firsts[i]).waypoint is None)
    }

    /// `s` are candidates of `f` that may be drawn among by capacity. Where `f`
    /// is uniform the capacities can be compared, and these are all candidates;
    /// where it is not they are those of any one cluster.
    pub open spec fn is_pool(f: Seq<Candidate>, s: Seq<Candidate>) -> bool {
        &&& s.len() > 0
        &&& if Self::uniform(f) {
            s == Self::newest(f)
        } else {
            exists|id: Seq<char>| s == #[trigger] Self::firsts(f).filter(Self::cluster_is(id))
        }
    }

    /// What is drawn among are candidates of `f`, no more than there are.
    pub(crate) proof fn lemma_pool(f: Seq<Candidate>, s: Seq<Candidate>)
        requires
            Self::is_pool(f, s),
        ensures
            forall|c: Candidate| #[trigger] s.contains(c) ==> f.contains(c),
            s.len() <= f.len(),
    {
        let firsts = Self::firsts(f);
        Self::lemma_firsts(f);
        Self::lemma_newest(f);
        Self::lemma_firsts_len(f);
        if !Self::uniform(f) {
            let id = choose|id: Seq<char>| s == #[trigger] firsts.filter(Self::cluster_is(id));
            firsts.lemma_filter_len(Self::cluster_is(id));
            assert forall|c: Candidate| #[trigger] s.contains(c) implies f.contains(c) by {
                firsts.lemma_filter_contains_rev(Self::cluster_is(id), c);
                let i = choose|i: int| 0 <= i < firsts.len() && firsts[i] == c;
                assert(f.contains(firsts[i]));
            }
        }
    }

    proof fn lemma_firsts_len(s: Seq<Candidate>)
        ensures
            Self::firsts(s).len() <= s.len(),
        decreases s.len(),
    {
        if s.len() > 0 {
            Self::lemma_firsts_len(s.drop_last());
        }
    }

    /// A draw among at most as many candidates as 32 bits count comes out with
    /// one where all of them have capacity.
    proof fn lemma_drawable(s: Seq<Candidate>)
        requires
            0 < s.len() <= u32::MAX,
            forall|i: int| 0 <= i < s.len() ==> (#[trigger] s[i]).workload.capacity > 0,
        ensures
            Self::drawable(s),
    {
        Self::lemma_total_capacity(s);
        assert(s[s.len() - 1] == s.last());
        assert(s.len() * u32::MAX <= u64::MAX) by (nonlinear_arith)
            requires
                s.len() <= u32::MAX,
        ;
    }

    pub(crate) proof fn lemma_total_capacity(s: Seq<Candidate>)
        ensures
            Self::total_capacity(s) <= s.len() * u32::MAX,
        decreases s.len(),
    {
        if s.len() > 0 {
            Self::lemma_total_capacity(s.drop_last());
            assert((s.len() - 1) * u32::MAX + u32::MAX == s.len() * u32::MAX) by (nonlinear_arith);
        }
    }

    /// Where every workload comes once there is nothing to choose between.
    pub(crate) proof fn lemma_distinct(s: Seq<Candidate>)
        requires
            Self::distinct(s),
        ensures
            Self::firsts(s) == s,
            Self::newest(s) == s,
        decreases s.len(),
    {
        if s.len() > 0 {
            let t = s.drop_last();
            Self::lemma_distinct(t);
            let end = s.len() - 1;
            if Self::has_uid(t, s[end].workload.uid@) {
                let k = choose|k: int|
                    0 <= k < t.len() && (#[trigger] t[k]).workload.uid@ == s[end].workload.uid@;
                assert(t[k] == s[k]);
            }
            assert(s =~= t.push(s[end]));
            Self::lemma_push(t, s[end]);
        } else {
            assert(Self::newest(s) =~= s);
        }
    }

    /// Filtering keeps the workloads distinct.
    pub(crate) proof fn lemma_filter_distinct(s: Seq<Candidate>, p: spec_fn(Candidate) -> bool)
        requires
            Self::distinct(s),
        ensures
            Self::distinct(s.filter(p)),
        decreases s.len(),
    {
        reveal(Seq::filter);
        if s.len() > 0 {
            let t = s.drop_last();
            Self::lemma_filter_distinct(t, p);
            let r = s.filter(p);
            assert forall|i: int, j: int| 0 <= i < j < r.len() implies (
            #[trigger] r[i]).workload.uid@ != (#[trigger] r[j]).workload.uid@ by {
                assert(r[i] == t.filter(p)[i]);
                if j < t.filter(p).len() {
                    assert(r[j] == t.filter(p)[j]);
                } else {
                    assert(t.filter(p).contains(t.filter(p)[i]));
                    t.lemma_filter_contains_rev(p, t.filter(p)[i]);
                    let k = choose|k: int| 0 <= k < t.len() && t[k] == t.filter(p)[i];
                    assert(s[k] == t[k]);
                    assert(s[s.len() - 1] == s.last());
                }
            }
        }
    }

    /// Filtering keeps the candidates the same.
    pub(crate) proof fn lemma_filter_same(
        s: Seq<Candidate>,
        t: Seq<Candidate>,
        p: spec_fn(Candidate) -> bool,
    )
        requires
            Self::same_items(s, t),
        ensures
            Self::same_items(s.filter(p), t.filter(p)),
    {
        assert forall|c: Candidate|
            #![trigger s.filter(p).contains(c)]
            #![trigger t.filter(p).contains(c)]
            s.filter(p).contains(c) <==> t.filter(p).contains(c) by {
            Self::lemma_filter_has(s, p, c);
            Self::lemma_filter_has(t, p, c);
        }
    }

    pub(crate) proof fn lemma_filter_has(s: Seq<Candidate>, p: spec_fn(Candidate) -> bool, c: Candidate)
        ensures
            s.filter(p).contains(c) <==> s.contains(c) && p(c),
    {
        if s.filter(p).contains(c) {
            s.lemma_filter_contains_rev(p, c);
            let k = choose|k: int| 0 <= k < s.filter(p).len() && s.filter(p)[k] == c;
            s.lemma_filter_pred(p, k);
        }
        if s.contains(c) && p(c) {
            let k = choose|k: int| 0 <= k < s.len() && s[k] == c;
            s.lemma_filter_contains(p, k);
        }
    }

    /// What one candidate adds to the sum of the capacities.
    pub(crate) proof fn lemma_remove_capacity(s: Seq<Candidate>, k: int)
        requires
            0 <= k < s.len(),
        ensures
            Self::total_capacity(s) == Self::total_capacity(s.remove(k))
                + s[k].workload.capacity as nat,
        decreases s.len(),
    {
        let end = s.len() - 1;
        if k == end {
            assert(s.remove(k) =~= s.drop_last());
        } else {
            Self::lemma_remove_capacity(s.drop_last(), k);
            assert(s.remove(k).drop_last() =~= s.drop_last().remove(k));
            assert(s.remove(k).last() == s.last());
        }
    }

    /// The number of the candidates and the sum of their capacities do not depend
    /// on their order.
    proof fn lemma_same_capacity(s: Seq<Candidate>, t: Seq<Candidate>)
        requires
            Self::distinct(s),
            Self::distinct(t),
            Self::same_items(s, t),
        ensures
            s.len() == t.len(),
            Self::total_capacity(s) == Self::total_capacity(t),
        decreases s.len(),
    {
        if s.len() == 0 {
            if t.len() > 0 {
                assert(t.contains(t[0]));
            }
        } else {
            let c = s.last();
            let rest = s.drop_last();
            assert(s[s.len() - 1] == c);
            assert(s.contains(c));
            let k = choose|k: int| 0 <= k < t.len() && t[k] == c;
            let u = t.remove(k);
            assert forall|d: Candidate|
                #![trigger rest.contains(d)]
                #![trigger u.contains(d)]
                rest.contains(d) <==> u.contains(d) by {
                if rest.contains(d) {
                    let i = choose|i: int| 0 <= i < rest.len() && rest[i] == d;
                    assert(s[i] == d);
                    assert(s.contains(d));
                    let l = choose|l: int| 0 <= l < t.len() && t[l] == d;
                    assert(s[i].workload.uid@ != s[s.len() - 1].workload.uid@);
                    if l < k {
                        assert(u[l] == d);
                    } else {
                        assert(u[l - 1] == d);
                    }
                }
                if u.contains(d) {
                    let l = choose|l: int| 0 <= l < u.len() && u[l] == d;
                    let m = if l < k {
                        l
                    } else {
                        l + 1
                    };
                    assert(t[m] == d);
                    assert(t.contains(d));
                    let i = choose|i: int| 0 <= i < s.len() && s[i] == d;
                    assert(t[m].workload.uid@ != t[k].workload.uid@);
                    assert(rest[i] == d);
                }
            }
            assert forall|i: int, j: int| 0 <= i < j < u.len() implies (
            #[trigger] u[i]).workload.uid@ != (#[trigger] u[j]).workload.uid@ by {
                let a = if i < k {
                    i
                } else {
                    i + 1
                };
                let b = if j < k {
                    j
                } else {
                    j + 1
                };
                assert(t[a] == u[i]);
                assert(t[b] == u[j]);
            }
            Self::lemma_same_capacity(rest, u);
            Self::lemma_remove_capacity(t, k);
        }
    }

    /// Whether there are waypoints, and others, does not depend on the order.
    proof fn lemma_same_waypoints(s: Seq<Candidate>, t: Seq<Candidate>)
        requires
            Self::same_items(s, t),
        ensures
            (exists|i: int| 0 <= i < s.len() && (#[trigger] s[i]).waypoint is Some) ==> (exists|
                i: int,
            | 0 <= i < t.len() && (#[trigger] t[i]).waypoint is Some),
            (exists|i: int| 0 <= i < s.len() && (#[trigger] s[i]).waypoint is None) ==> (exists|
                i: int,
            | 0 <= i < t.len() && (#[trigger] t[i]).waypoint is None),
    {
        assert forall|i: int| 0 <= i < s.len() implies exists|j: int|
            0 <= j < t.len() && (#[trigger] t[j]) == #[trigger] s[i] by {
            assert(s.contains(s[i]));
            assert(t.contains(s[i]));
        }
    }

    /// Every option has the capacity of its workload for its weight.
    pub open spec fn by_capacity(options: Seq<(&Candidate, u64)>) -> bool {
        forall|j: int|
            0 <= j < options.len() ==> (#[trigger] options[j]).1 == options[j].0.workload.capacity
    }

    /// The sum of the weights is that of the capacities.
    proof fn lemma_weights(options: Seq<(&Candidate, u64)>, s: Seq<Candidate>)
        requires
            options.len() == s.len(),
            Self::by_capacity(options),
            forall|j: int| 0 <= j < s.len() ==> *(#[trigger] options[j]).0 == s[j],
        ensures
            crate::random::total_weight(options) == Self::total_capacity(s),
        decreases s.len(),
    {
        if s.len() > 0 {
            let rest = options.drop_last();
            assert forall|j: int| 0 <= j < rest.len() implies #[trigger] rest[j] == options[j] by {}
            Self::lemma_weights(rest, s.drop_last());
            assert(options[s.len() - 1] == options.last());
        }
    }

    /// The candidates, each with the weight that it is drawn by: the capacity of
    /// its workload.
    pub fn weighted(candidates: &Vec<Candidate>) -> (r: Vec<(&Candidate, u64)>)
        ensures
            r@.len() == candidates@.len(),
            forall|j: int|
                0 <= j < r@.len() ==> *(#[trigger] r@[j]).0 == candidates@[j] && r@[j].1
                    == candidates@[j].workload.capacity,
    {
        let mut r: Vec<(&Candidate, u64)> = Vec::new();
        let mut i: usize = 0;
        while i < candidates.len()
            invariant
                i <= candidates.len(),
                r@.len() == i,
                forall|j: int|
                    0 <= j < i ==> *(#[trigger] r@[j]).0 == candidates@[j] && r@[j].1
                        == candidates@[j].workload.capacity,
            decreases candidates.len() - i,
        {
            r.push((&candidates[i], candidates[i].workload.capacity as u64));
            i = i + 1;
        }
        r
    }

    /// One of the candidates, drawn by capacity.
    fn draw(candidates: &Vec<Candidate>) -> (r: Option<&Candidate>)
        ensures
            r is Some <==> Self::drawable(candidates@),
            r matches Some(c) ==> candidates@.contains(*c) && c.workload.capacity > 0,
    {
        let options = Self::weighted(candidates);
        proof {
            Self::lemma_weights(options@, candidates@);
        }
        match choose_weighted(&options) {
            Some(c) => Some(*c),
            None => None,
        }
    }
}

/// How closely workloads match the routing preferences of a service.
pub struct Ranking {
    pub source: Workload,
    pub service: Service,
}

impl Ranking {
    /// Source and target agree in what the preference is about.
    pub open spec fn agrees(self, scope: LoadBalancerScopes, target: &Workload) -> bool {
        let source = self.source;
        match scope {
            LoadBalancerScopes::Region => source.locality.region@ == target.locality.region@,
            LoadBalancerScopes::Zone => source.locality.zone@ == target.locality.zone@,
            LoadBalancerScopes::Subzone => source.locality.subzone@ == target.locality.subzone@,
            LoadBalancerScopes::Node => source.node@ == target.node@,
            LoadBalancerScopes::Cluster => source.cluster_id@ == target.cluster_id@,
            LoadBalancerScopes::Network => source.network@ == target.network@,
        }
    }

    /// How many preferences are met before the first that is not.
    pub open spec fn met(self, preferences: Seq<LoadBalancerScopes>, target: &Workload) -> nat
        decreases preferences.len(),
    {
        if preferences.len() == 0 || !self.agrees(preferences[0], target) {
            0
        } else {
            1 + self.met(preferences.drop_first(), target)
        }
    }

    /// The rank of a target workload: the higher, the better it fits the load
    /// balancing preferences. Nothing where it does not fit the policy at all.
    pub open spec fn rank(self, target: &Workload) -> Option<nat> {
        match self.service.load_balancer {
            Some(lb) => {
                let preferences = lb.routing_preferences@;
                if lb.mode == LoadBalancerMode::Standard {
                    Some(0)
                } else if lb.mode == LoadBalancerMode::Strict && self.met(preferences, target)
                    != preferences.len() {
                    None
                } else {
                    Some(self.met(preferences, target))
                }
            },
            None => Some(0),
        }
    }

    pub open spec fn ranked(self, n: nat) -> spec_fn(Candidate) -> bool {
        |c: Candidate| self.rank(&c.workload) == Some(n)
    }

    /// The highest rank among the candidates; zero where none has a rank.
    pub open spec fn best(self, s: Seq<Candidate>) -> nat
        decreases s.len(),
    {
        if s.len() == 0 {
            0
        } else {
            let before = self.best(s.drop_last());
            match self.rank(&s.last().workload) {
                Some(r) => if r > before {
                    r
                } else {
                    before
                },
                None => before,
            }
        }
    }

    /// The candidates of the highest rank, in their order.
    pub open spec fn finalists(self, s: Seq<Candidate>) -> Seq<Candidate> {
        s.filter(self.ranked(self.best(s)))
    }

    /// `r` may come out of picking among the candidates that were offered: one
    /// of those of the highest rank, that has capacity; or nothing, where none
    /// has a rank or where those that are drawn among have no capacity, or too
    /// much to sum up.
    pub open spec fn may_pick(self, offered: Seq<Candidate>, r: Option<Candidate>) -> bool {
        let f = self.finalists(offered);
        match r {
            Some(c) => c.workload.capacity > 0 && exists|s: Seq<Candidate>|
                #[trigger] Candidate::is_pool(f, s) && Candidate::drawable(s) && s.contains(c),
            None => f.len() == 0 || exists|s: Seq<Candidate>|
                #[trigger] Candidate::is_pool(f, s) && !Candidate::drawable(s),
        }
    }

    /// No candidate has a higher rank than the best one, and where the best is
    /// not zero some candidate has it.
    pub proof fn lemma_best(self, s: Seq<Candidate>)
        ensures
            forall|i: int|
                0 <= i < s.len() ==> (self.rank(&(#[trigger] s[i]).workload) matches Some(r) ==> r
                    <= self.best(s)),
            self.best(s) > 0 ==> exists|i: int|
                0 <= i < s.len() && self.rank(&(#[trigger] s[i]).workload) == Some(self.best(s)),
        decreases s.len(),
    {
        if s.len() > 0 {
            let t = s.drop_last();
            self.lemma_best(t);
            assert forall|i: int| 0 <= i < s.len() implies (self.rank(
                &(#[trigger] s[i]).workload,
            ) matches Some(r) ==> r <= self.best(s)) by {
                if i < t.len() {
                    assert(t[i] == s[i]);
                }
            }
            if self.best(s) > 0 {
                if self.best(s) == self.best(t) {
                    let i = choose|i: int|
                        0 <= i < t.len() && self.rank(&(#[trigger] t[i]).workload) == Some(
                            self.best(t),
                        );
                    assert(s[i] == t[i]);
                } else {
                    assert(s[s.len() - 1] == s.last());
                }
            }
        }
    }

    /// The preferences that are met are the first ones, up to the first that is
    /// not.
    pub proof fn lemma_met(self, preferences: Seq<LoadBalancerScopes>, target: &Workload)
        ensures
            self.met(preferences, target) <= preferences.len(),
            forall|i: int|
                0 <= i < self.met(preferences, target) ==> self.agrees(
                    #[trigger] preferences[i],
                    target,
                ),
            self.met(preferences, target) < preferences.len() ==> !self.agrees(
                preferences[self.met(preferences, target) as int],
                target,
            ),
        decreases preferences.len(),
    {
        if preferences.len() > 0 && self.agrees(preferences[0], target) {
            let rest = preferences.drop_first();
            self.lemma_met(rest, target);
            assert forall|i: int| 0 <= i < self.met(preferences, target) implies self.agrees(
                #[trigger] preferences[i],
                target,
            ) by {
                if i > 0 {
                    assert(preferences[i] == rest[i - 1]);
                }
            }
        }
    }

    /// A candidate that is picked was offered, has capacity, and no candidate
    /// that was offered has a higher rank.
    pub proof fn lemma_picked(self, offered: Seq<Candidate>, c: Candidate)
        requires
            self.may_pick(offered, Some(c)),
        ensures
            offered.contains(c),
            c.workload.capacity > 0,
            self.rank(&c.workload) == Some(self.best(offered)),
            forall|i: int|
                0 <= i < offered.len() ==> (self.rank(
                    &(#[trigger] offered[i]).workload,
                ) matches Some(r) ==> r <= self.rank(&c.workload)->0),
    {
        let f = self.finalists(offered);
        let p = self.ranked(self.best(offered));
        let s = choose|s: Seq<Candidate>|
            #[trigger] Candidate::is_pool(f, s) && Candidate::drawable(s) && s.contains(c);
        Candidate::lemma_pool(f, s);
        assert(f.contains(c));
        offered.lemma_filter_contains_rev(p, c);
        let k = choose|k: int| 0 <= k < f.len() && f[k] == c;
        offered.lemma_filter_pred(p, k);
        self.lemma_best(offered);
    }

    /// Without a load balancing policy, or with one that sets no preference, no
    /// candidate goes before another.
    pub proof fn lemma_standard(self, offered: Seq<Candidate>)
        requires
            self.service.load_balancer matches Some(lb) ==> lb.mode == LoadBalancerMode::Standard,
        ensures
            self.finalists(offered) == offered,
    {
        self.lemma_best(offered);
        let p = self.ranked(0);
        assert forall|j: int| 0 <= j < offered.len() implies p(#[trigger] offered[j]) by {}
        crate::search::lemma_filter_all(offered, p);
    }

    /// Where no candidate is of a waypoint one is picked if and only if those of
    /// the highest rank have capacity, and not too much to sum up.
    pub proof fn lemma_direct_only(self, offered: Seq<Candidate>)
        requires
            forall|c: Candidate| #[trigger] offered.contains(c) ==> c.waypoint is None,
        ensures
            forall|r: Option<Candidate>|
                #[trigger] self.may_pick(offered, r) ==> (r is Some <==> Candidate::drawable(
                    Candidate::newest(self.finalists(offered)),
                )),
    {
        let f = self.finalists(offered);
        let p = self.ranked(self.best(offered));
        let firsts = Candidate::firsts(f);
        Candidate::lemma_firsts(f);
        Candidate::lemma_newest(f);
        assert forall|i: int| 0 <= i < firsts.len() implies (
        #[trigger] firsts[i]).waypoint is None by {
            assert(f.contains(firsts[i]));
            offered.lemma_filter_contains_rev(p, firsts[i]);
        }
        if f.len() > 0 {
            assert(f[0].workload.uid@ == f[0].workload.uid@);
            assert(Candidate::has_uid(f, f[0].workload.uid@));
            assert(Candidate::has_uid(firsts, f[0].workload.uid@));
            assert(firsts[0].waypoint is None);
            assert(Candidate::uniform(f));
        } else {
            assert(firsts.len() == 0);
        }
        assert forall|r: Option<Candidate>| #[trigger] self.may_pick(offered, r) implies (
        r is Some <==> Candidate::drawable(Candidate::newest(f))) by {
            if r is Some {
                let s = choose|s: Seq<Candidate>|
                    #[trigger] Candidate::is_pool(f, s) && Candidate::drawable(s) && s.contains(
                        r->0,
                    );
                Candidate::lemma_pool(f, s);
            }
        }
    }

    /// The highest rank does not depend on the order of the candidates.
    proof fn lemma_same_best(self, s: Seq<Candidate>, t: Seq<Candidate>)
        requires
            Candidate::same_items(s, t),
        ensures
            self.best(s) <= self.best(t),
    {
        self.lemma_best(s);
        self.lemma_best(t);
        if self.best(s) > 0 {
            let i = choose|i: int|
                0 <= i < s.len() && self.rank(&(#[trigger] s[i]).workload) == Some(self.best(s));
            assert(s.contains(s[i]));
            assert(t.contains(s[i]));
            let j = choose|j: int| 0 <= j < t.len() && t[j] == s[i];
            assert(self.rank(&t[j].workload) == Some(self.best(s)));
        }
    }

    /// The candidates of the highest rank do not depend on the order in which
    /// candidates of distinct workloads are offered.
    pub proof fn lemma_same_finalists(self, s: Seq<Candidate>, t: Seq<Candidate>)
        requires
            Candidate::distinct(s),
            Candidate::distinct(t),
            Candidate::same_items(s, t),
        ensures
            self.best(s) == self.best(t),
            Candidate::distinct(self.finalists(s)),
            Candidate::distinct(self.finalists(t)),
            Candidate::same_items(self.finalists(s), self.finalists(t)),
            Candidate::uniform(self.finalists(s)) == Candidate::uniform(self.finalists(t)),
    {
        self.lemma_same_best(s, t);
        self.lemma_same_best(t, s);
        let p = self.ranked(self.best(s));
        Candidate::lemma_filter_distinct(s, p);
        Candidate::lemma_filter_distinct(t, p);
        Candidate::lemma_filter_same(s, t, p);
        Candidate::lemma_distinct(self.finalists(s));
        Candidate::lemma_distinct(self.finalists(t));
        Candidate::lemma_same_waypoints(self.finalists(s), self.finalists(t));
        Candidate::lemma_same_waypoints(self.finalists(t), self.finalists(s));
    }

    /// What may be picked does not depend on the order in which candidates of
    /// distinct workloads are offered.
    pub proof fn lemma_same_picks(
        self,
        s: Seq<Candidate>,
        t: Seq<Candidate>,
        r: Option<Candidate>,
    )
        requires
            Candidate::distinct(s),
            Candidate::distinct(t),
            Candidate::same_items(s, t),
        ensures
            self.may_pick(s, r) <==> self.may_pick(t, r),
    {
        if self.may_pick(s, r) {
            self.lemma_picks(s, t, r);
        }
        if self.may_pick(t, r) {
            self.lemma_picks(t, s, r);
        }
    }

    proof fn lemma_picks(self, s: Seq<Candidate>, t: Seq<Candidate>, r: Option<Candidate>)
        requires
            Candidate::distinct(s),
            Candidate::distinct(t),
            Candidate::same_items(s, t),
            self.may_pick(s, r),
        ensures
            self.may_pick(t, r),
    {
        let f = self.finalists(s);
        let g = self.finalists(t);
        self.lemma_same_finalists(s, t);
        Candidate::lemma_same_capacity(f, g);
        if r is Some || f.len() > 0 {
            let pool = choose|pool: Seq<Candidate>|
                #[trigger] Candidate::is_pool(f, pool) && match r {
                    Some(c) => Candidate::drawable(pool) && pool.contains(c),
                    None => !Candidate::drawable(pool),
                };
            Candidate::lemma_distinct(f);
            Candidate::lemma_distinct(g);
            let other = if Candidate::uniform(f) {
                g
            } else {
                let id = choose|id: Seq<char>| pool == #[trigger] f.filter(Candidate::cluster_is(id));
                g.filter(Candidate::cluster_is(id))
            };
            if !Candidate::uniform(f) {
                let id = choose|id: Seq<char>| pool == #[trigger] f.filter(Candidate::cluster_is(id));
                let p = Candidate::cluster_is(id);
                Candidate::lemma_filter_distinct(f, p);
                Candidate::lemma_filter_distinct(g, p);
                Candidate::lemma_filter_same(f, g, p);
            }
            Candidate::lemma_same_capacity(pool, other);
            assert(Candidate::is_pool(g, other));
        }
    }

    /// Under a strict policy a candidate that is picked meets every preference.
    pub proof fn lemma_strict(self, offered: Seq<Candidate>, c: Candidate, i: int)
        requires
            self.service.load_balancer matches Some(lb) && lb.mode == LoadBalancerMode::Strict && 0
                <= i < lb.routing_preferences@.len(),
            self.may_pick(offered, Some(c)),
        ensures
            self.agrees(self.service.load_balancer->0.routing_preferences@[i], &c.workload),
    {
        self.lemma_picked(offered, c);
        self.lemma_met(self.service.load_balancer->0.routing_preferences@, &c.workload);
    }

    /// A candidate is picked wherever one has a rank, if those of the highest
    /// rank all have capacity, and are not more than 32 bits count.
    pub proof fn lemma_pick_owed(self, offered: Seq<Candidate>)
        requires
            exists|i: int|
                0 <= i < offered.len() && self.rank(&(#[trigger] offered[i]).workload) is Some,
            forall|i: int|
                0 <= i < self.finalists(offered).len() ==> (
                #[trigger] self.finalists(offered)[i]).workload.capacity > 0,
            offered.len() <= u32::MAX,
        ensures
            !self.may_pick(offered, None),
    {
        let f = self.finalists(offered);
        let p = self.ranked(self.best(offered));
        self.lemma_best(offered);
        offered.lemma_filter_len(p);
        let i = choose|i: int|
            0 <= i < offered.len() && self.rank(&(#[trigger] offered[i]).workload) is Some;
        if self.best(offered) == 0 {
            assert(p(offered[i]));
            offered.lemma_filter_contains(p, i);
        } else {
            let j = choose|j: int|
                0 <= j < offered.len() && self.rank(&(#[trigger] offered[j]).workload) == Some(
                    self.best(offered),
                );
            assert(p(offered[j]));
            offered.lemma_filter_contains(p, j);
        }
        assert forall|s: Seq<Candidate>| #[trigger] Candidate::is_pool(f, s) implies Candidate::drawable(
            s,
        ) by {
            Candidate::lemma_pool(f, s);
            assert forall|k: int| 0 <= k < s.len() implies (
            #[trigger] s[k]).workload.capacity > 0 by {
                assert(s.contains(s[k]));
                let l = choose|l: int| 0 <= l < f.len() && f[l] == s[k];
                assert(f[l].workload.capacity > 0);
            }
            Candidate::lemma_drawable(s);
        }
    }

    /// What one more candidate changes.
    proof fn lemma_finalists_push(self, s: Seq<Candidate>, c: Candidate)
        ensures
            match self.rank(&c.workload) {
                None => self.best(s.push(c)) == self.best(s) && self.finalists(s.push(c))
                    == self.finalists(s),
                Some(r) => if r < self.best(s) {
                    self.best(s.push(c)) == self.best(s) && self.finalists(s.push(c))
                        == self.finalists(s)
                } else if r == self.best(s) {
                    self.best(s.push(c)) == r && self.finalists(s.push(c)) == self.finalists(
                        s,
                    ).push(c)
                } else {
                    self.best(s.push(c)) == r && self.finalists(s.push(c)) == seq![c]
                },
            },
    {
        let t = s.push(c);
        assert(t.drop_last() =~= s);
        let p = self.ranked(self.best(t));
        reveal(Seq::filter);
        assert(t.filter(p) == (if p(c) {
            s.filter(p).push(c)
        } else {
            s.filter(p)
        }));
        if self.rank(&c.workload) is Some {
            if self.rank(&c.workload)->0 > self.best(s) {
                self.lemma_best(s);
                assert forall|i: int| 0 <= i < s.len() implies !p(#[trigger] s[i]) by {}
                s.lemma_all_neg_filter_empty(p);
                assert(t.filter(p) =~= seq![c]);
            }
        }
    }
}

/// Candidates of one cluster.
#[derive(Debug)]
pub struct ClusterCandidates {
    pub cluster_id: String,
    pub candidates: Vec<Candidate>,
}

/// Collects the candidates of the highest rank, and picks one of them.
pub struct EndpointPicker<'a> {
    pub source_workload: &'a Workload,
    pub target_service: &'a Service,
    /// One candidate for each workload of the highest rank.
    pub candidates: Vec<Candidate>,
    /// The candidates by their clusters.
    pub clusters: Vec<ClusterCandidates>,
    pub best_rank: usize,
    pub has_waypoints: bool,
    pub has_directs: bool,
    /// All candidates that were offered.
    pub offered: Ghost<Seq<Candidate>>,
}

impl<'a> EndpointPicker<'a> {
    /// The ranking by the routing preferences of the target service.
    pub open spec fn ranking(self) -> Ranking {
        Ranking { source: *self.source_workload, service: *self.target_service }
    }

    /// The candidates of the highest rank among those that were offered.
    pub open spec fn finalists(self) -> Seq<Candidate> {
        self.ranking().finalists(self.offered@)
    }

    /// The picker holds the candidates `f`, and nothing else.
    pub open spec fn holds(self, f: Seq<Candidate>) -> bool {
        let firsts = Candidate::firsts(f);
        &&& self.candidates@ == Candidate::newest(f)
        &&& self.has_waypoints == exists|i: int|
            0 <= i < firsts.len() && (#[trigger] firsts[i]).waypoint is Some
        &&& self.has_directs == exists|i: int|
            0 <= i < firsts.len() && (#[trigger] firsts[i]).waypoint is None
        // every cluster holds its candidates, and has some
        &&& forall|k: int|
            0 <= k < self.clusters@.len() ==> (#[trigger] self.clusters@[k]).candidates@
                == firsts.filter(Candidate::cluster_is(self.clusters@[k].cluster_id@))
        &&& forall|k: int|
            0 <= k < self.clusters@.len() ==> (#[trigger] self.clusters@[k]).candidates@.len() > 0
        &&& forall|k: int, l: int|
            0 <= k < l < self.clusters@.len() ==> (#[trigger] self.clusters@[k]).cluster_id@ != (
            #[trigger] self.clusters@[l]).cluster_id@
        // every candidate is in a cluster
        &&& forall|i: int|
            0 <= i < firsts.len() ==> self.has_cluster(
                (#[trigger] firsts[i]).workload.cluster_id@,
            )
    }

    pub open spec fn has_cluster(self, id: Seq<char>) -> bool {
        exists|k: int| 0 <= k < self.clusters@.len() && (#[trigger] self.clusters@[k]).cluster_id@ == id
    }

    /// The picker holds the candidates of the highest rank among those that were
    /// offered, and nothing else.
    pub open spec fn wf(self) -> bool {
        &&& self.best_rank == self.ranking().best(self.offered@)
        &&& self.holds(self.finalists())
    }

    /// A picker that was offered nothing yet.
    pub fn new(source_workload: &'a Workload, target_service: &'a Service) -> (r: Self)
        ensures
            r.wf(),
            r.source_workload == source_workload,
            r.target_service == target_service,
            r.offered@ == Seq::<Candidate>::empty(),
    {
        proof {
            reveal(Seq::filter);
        }
        let r = EndpointPicker {
            source_workload,
            target_service,
            candidates: Vec::new(),
            clusters: Vec::new(),
            best_rank: 0,
            has_waypoints: false,
            has_directs: false,
            offered: Ghost(Seq::empty()),
        };
        proof {
            assert(r.finalists() =~= Seq::<Candidate>::empty());
            assert(r.candidates@ =~= Candidate::newest(r.finalists()));
        }
        r
    }

    /// Whether source and target agree in what the preference is about.
    fn scope_agrees(&self, scope: LoadBalancerScopes, target: &Workload) -> (r: bool)
        ensures
            r == self.ranking().agrees(scope, target),
    {
        let source = self.source_workload;
        match scope {
            LoadBalancerScopes::Region => source.locality.region == target.locality.region,
            LoadBalancerScopes::Zone => source.locality.zone == target.locality.zone,
            LoadBalancerScopes::Subzone => source.locality.subzone == target.locality.subzone,
            LoadBalancerScopes::Node => source.node == target.node,
            LoadBalancerScopes::Cluster => source.cluster_id == target.cluster_id,
            LoadBalancerScopes::Network => source.network == target.network,
        }
    }

    /// How many preferences are met before the first that is not.
    fn met(&self, preferences: &Vec<LoadBalancerScopes>, target: &Workload) -> (r: usize)
        ensures
            r == self.ranking().met(preferences@, target),
            r <= preferences@.len(),
    {
        let ghost all = preferences@;
        let ghost ranking = self.ranking();
        let mut n: usize = 0;
        proof {
            assert(all.skip(0) =~= all);
        }
        while n < preferences.len()
            invariant
                n <= preferences.len(),
                all == preferences@,
                ranking == self.ranking(),
                ranking.met(all, target) == n + ranking.met(all.skip(n as int), target),
            decreases preferences.len() - n,
        {
            proof {
                assert(all.skip(n as int)[0] == all[n as int]);
                assert(all.skip(n as int).drop_first() =~= all.skip(n + 1));
            }
            if !self.scope_agrees(preferences[n], target) {
                return n;
            }
            n = n + 1;
        }
        n
    }

    /// Tells how closely the target workload matches the routing preferences of
    /// the service. The higher the rank, the better it fits the load balancing
    /// preferences.
    ///
    /// Say the preferences are network, region and zone, in that order: where
    /// all three of source and target are equal the rank is 3; where only the
    /// zone differs it is 2; where the network is equal but the region is not it
    /// is 1, whatever the zone.
    ///
    /// Nothing where the workload does not match the load balancing policy at
    /// all.
    pub fn workload_rank(&self, target: &Workload) -> (r: Option<usize>)
        ensures
            match r {
                Some(n) => self.ranking().rank(target) == Some(n as nat),
                None => self.ranking().rank(target) is None,
            },
    {
        match &self.target_service.load_balancer {
            Some(lb) => {
                if lb.mode == LoadBalancerMode::Standard {
                    return Some(0);
                }
                let rank: usize = self.met(&lb.routing_preferences, target);
                if lb.mode == LoadBalancerMode::Strict && rank != lb.routing_preferences.len() {
                    return None;
                }
                Some(rank)
            },
            None => Some(0),
        }
    }

    /// Where the candidate of the workload with this UID stands.
    fn position(&self, uid: &String) -> (r: Option<usize>)
        ensures
            match r {
                Some(i) => i < self.candidates@.len() && self.candidates@[i as int].workload.uid@
                    == uid@,
                None => forall|j: int|
                    0 <= j < self.candidates@.len() ==> (
                    #[trigger] self.candidates@[j]).workload.uid@ != uid@,
            },
    {
        let mut i: usize = 0;
        while i < self.candidates.len()
            invariant
                i <= self.candidates.len(),
                forall|j: int|
                    0 <= j < i ==> (#[trigger] self.candidates@[j]).workload.uid@ != uid@,
            decreases self.candidates.len() - i,
        {
            if self.candidates[i].workload.uid == *uid {
                return Some(i);
            }
            i = i + 1;
        }
        None
    }

    /// Where the cluster with this ID stands.
    fn cluster_position(&self, id: &String) -> (r: Option<usize>)
        ensures
            match r {
                Some(i) => i < self.clusters@.len() && self.clusters@[i as int].cluster_id@ == id@,
                None => !self.has_cluster(id@),
            },
    {
        let mut i: usize = 0;
        while i < self.clusters.len()
            invariant
                i <= self.clusters.len(),
                forall|j: int| 0 <= j < i ==> (#[trigger] self.clusters@[j]).cluster_id@ != id@,
            decreases self.clusters.len() - i,
        {
            if self.clusters[i].cluster_id == *id {
                return Some(i);
            }
            i = i + 1;
        }
        None
    }

    /// Takes in one more candidate of the rank of those that are held.
    fn keep(&mut self, candidate: Candidate, Ghost(f): Ghost<Seq<Candidate>>)
        requires
            old(self).holds(f),
        ensures
            final(self).holds(f.push(candidate)),
            final(self).source_workload == old(self).source_workload,
            final(self).target_service == old(self).target_service,
            final(self).best_rank == old(self).best_rank,
            final(self).offered == old(self).offered,
    {
        let ghost fs = Candidate::firsts(f);
        let ghost g = f.push(candidate);
        let ghost c = candidate;
        proof {
            Candidate::lemma_firsts(f);
            Candidate::lemma_newest(f);
            Candidate::lemma_push(f, candidate);
        }
        match self.position(&candidate.workload.uid) {
            Some(i) => {
                proof {
                    assert(f.contains(Candidate::newest(f)[i as int]));
                    let k = choose|k: int| 0 <= k < f.len() && f[k] == Candidate::newest(f)[i as int];
                    assert(f[k].workload.uid@ == c.workload.uid@);
                    assert(Candidate::has_uid(f, c.workload.uid@));
                }
                self.candidates.set(i, candidate);
            },
            None => {
                proof {
                    if Candidate::has_uid(f, c.workload.uid@) {
                        assert(Candidate::has_uid(fs, c.workload.uid@));
                        let k = choose|k: int|
                            0 <= k < fs.len() && (#[trigger] fs[k]).workload.uid@ == c.workload.uid@;
                        assert(Candidate::newest(f)[k].workload.uid@ == c.workload.uid@);
                    }
                }
                self.candidates.push(candidate.clone());
                if candidate.waypoint.is_some() {
                    self.has_waypoints = true;
                } else {
                    self.has_directs = true;
                }
                let ghost gs = Candidate::firsts(g);
                proof {
                    assert(gs == fs.push(c));
                    assert(gs[fs.len() as int] == c);
                    assert forall|i: int| 0 <= i < fs.len() implies #[trigger] gs[i] == fs[i] by {}
                    if old(self).has_waypoints {
                        let i = choose|i: int|
                            0 <= i < fs.len() && (#[trigger] fs[i]).waypoint is Some;
                        assert(gs[i].waypoint is Some);
                    }
                    if old(self).has_directs {
                        let i = choose|i: int|
                            0 <= i < fs.len() && (#[trigger] fs[i]).waypoint is None;
                        assert(gs[i].waypoint is None);
                    }
                    assert forall|id: Seq<char>| #[trigger]
                        gs.filter(Candidate::cluster_is(id)) == (if c.workload.cluster_id@ == id {
                            fs.filter(Candidate::cluster_is(id)).push(c)
                        } else {
                            fs.filter(Candidate::cluster_is(id))
                        }) by {
                        fs.lemma_filter_push(c, Candidate::cluster_is(id));
                    }
                }
                match self.cluster_position(&candidate.workload.cluster_id) {
                    Some(k) => {
                        let ghost before = *self;
                        self.clusters[k].candidates.push(candidate);
                        proof {
                            assert forall|id: Seq<char>| before.has_cluster(
                                id,
                            ) implies #[trigger] self.has_cluster(id) by {
                                let l = choose|l: int|
                                    0 <= l < before.clusters@.len() && (
                                    #[trigger] before.clusters@[l]).cluster_id@ == id;
                                assert(self.clusters@[l].cluster_id@ == id);
                            }
                        }
                    },
                    None => {
                        let ghost before = *self;
                        let mut members: Vec<Candidate> = Vec::new();
                        let cluster_id = candidate.workload.cluster_id.clone();
                        members.push(candidate);
                        self.clusters.push(ClusterCandidates { cluster_id, candidates: members });
                        proof {
                            let p = Candidate::cluster_is(c.workload.cluster_id@);
                            assert forall|i: int| 0 <= i < fs.len() implies !p(
                                #[trigger] fs[i],
                            ) by {
                                assert(before.has_cluster(fs[i].workload.cluster_id@));
                            }
                            fs.lemma_all_neg_filter_empty(p);
                            assert(fs.filter(p).push(c) =~= seq![c]);
                            assert(members@ =~= seq![c]);
                            let n = before.clusters@.len() as int;
                            assert(self.clusters@[n].cluster_id@ == c.workload.cluster_id@);
                            assert forall|id: Seq<char>| before.has_cluster(
                                id,
                            ) implies #[trigger] self.has_cluster(id) by {
                                let l = choose|l: int|
                                    0 <= l < n && (#[trigger] before.clusters@[l]).cluster_id@ == id;
                                assert(self.clusters@[l].cluster_id@ == id);
                            }
                        }
                    },
                }
            },
        }
    }

    /// Takes a candidate into account. One of a lower rank than another that was
    /// offered is ignored; one of a higher rank than all others drops them.
    pub fn add_candidate(&mut self, candidate: Candidate)
        requires
            old(self).wf(),
        ensures
            final(self).wf(),
            final(self).source_workload == old(self).source_workload,
            final(self).target_service == old(self).target_service,
            final(self).offered@ == old(self).offered@.push(candidate),
    {
        let ghost all = self.offered@;
        proof {
            self.ranking().lemma_finalists_push(all, candidate);
        }
        let rank: usize = match self.workload_rank(&candidate.workload) {
            Some(rank) => rank,
            None => {
                self.offered = Ghost(all.push(candidate));
                return;
            },
        };
        if rank < self.best_rank {
            // Not as good as some other options seen already.
            self.offered = Ghost(all.push(candidate));
            return;
        }
        let ghost mut f = self.finalists();
        if rank > self.best_rank {
            // Better than anything seen so far: what was considered up to this
            // point is dropped.
            self.candidates = Vec::new();
            self.clusters = Vec::new();
            self.best_rank = rank;
            self.has_waypoints = false;
            self.has_directs = false;
            proof {
                f = Seq::empty();
                assert(self.candidates@ =~= Candidate::newest(f));
            }
        }
        let ghost g = f.push(candidate);
        self.offered = Ghost(all.push(candidate));
        proof {
            assert(self.finalists() =~= g);
        }
        self.keep(candidate, Ghost(f));
    }

    /// Offers a workload that serves a waypoint.
    pub fn add_waypoint_endpoint(
        &mut self,
        workload: Arc<Workload>,
        waypoint: Arc<Service>,
        endpoint: Arc<Endpoint>,
        port: u16,
    )
        requires
            old(self).wf(),
        ensures
            final(self).wf(),
            final(self).source_workload == old(self).source_workload,
            final(self).target_service == old(self).target_service,
            final(self).offered@ == old(self).offered@.push(
                (Candidate { workload, waypoint: Some(waypoint), endpoint, port }),
            ),
    {
        let candidate = Candidate { workload, waypoint: Some(waypoint), endpoint, port };
        self.add_candidate(candidate);
    }

    /// Offers a workload that serves the target service itself.
    pub fn add_direct_endpoint(
        &mut self,
        workload: Arc<Workload>,
        endpoint: Arc<Endpoint>,
        port: u16,
    )
        requires
            old(self).wf(),
        ensures
            final(self).wf(),
            final(self).source_workload == old(self).source_workload,
            final(self).target_service == old(self).target_service,
            final(self).offered@ == old(self).offered@.push(
                (Candidate { workload, waypoint: None, endpoint, port }),
            ),
    {
        let candidate = Candidate { workload, waypoint: None, endpoint, port };
        self.add_candidate(candidate);
    }

    /// There are clusters wherever there are candidates.
    pub proof fn lemma_clusters(self)
        requires
            self.wf(),
        ensures
            self.candidates@.len() == 0 <==> self.finalists().len() == 0,
            self.candidates@.len() == 0 <==> self.clusters@.len() == 0,
    {
        let f = self.finalists();
        let firsts = Candidate::firsts(f);
        Candidate::lemma_firsts(f);
        Candidate::lemma_newest(f);
        if f.len() > 0 {
            assert(f[0].workload.uid@ == f[0].workload.uid@);
            assert(Candidate::has_uid(f, f[0].workload.uid@));
            assert(Candidate::has_uid(firsts, f[0].workload.uid@));
            assert(self.has_cluster(firsts[0].workload.cluster_id@));
        }
        if self.clusters@.len() > 0 {
            let c = self.clusters@[0];
            firsts.lemma_filter_len(Candidate::cluster_is(c.cluster_id@));
        }
    }

    /// What a picker holds does not depend on the order in which candidates of
    /// distinct workloads were offered to it.
    pub proof fn lemma_order(self, other: EndpointPicker)
        requires
            self.wf(),
            other.wf(),
            self.ranking() == other.ranking(),
            Candidate::distinct(self.offered@),
            Candidate::distinct(other.offered@),
            Candidate::same_items(self.offered@, other.offered@),
        ensures
            self.best_rank == other.best_rank,
            self.has_waypoints == other.has_waypoints,
            self.has_directs == other.has_directs,
            self.candidates@.len() == other.candidates@.len(),
            Candidate::distinct(self.candidates@),
            Candidate::distinct(other.candidates@),
            Candidate::same_items(self.candidates@, other.candidates@),
            forall|k: int, l: int|
                0 <= k < self.clusters@.len() && 0 <= l < other.clusters@.len()
                    && self.clusters@[k].cluster_id@ == other.clusters@[l].cluster_id@
                    ==> Candidate::same_items(
                    (#[trigger] self.clusters@[k]).candidates@,
                    (#[trigger] other.clusters@[l]).candidates@,
                ),
            forall|id: Seq<char>| #[trigger] self.has_cluster(id) <==> other.has_cluster(id),
    {
        let f = self.finalists();
        let g = other.finalists();
        self.ranking().lemma_same_finalists(self.offered@, other.offered@);
        Candidate::lemma_distinct(f);
        Candidate::lemma_distinct(g);
        Candidate::lemma_same_capacity(f, g);
        Candidate::lemma_same_waypoints(f, g);
        Candidate::lemma_same_waypoints(g, f);
        assert forall|k: int, l: int|
            0 <= k < self.clusters@.len() && 0 <= l < other.clusters@.len()
                && self.clusters@[k].cluster_id@
                == other.clusters@[l].cluster_id@ implies Candidate::same_items(
            (#[trigger] self.clusters@[k]).candidates@,
            (#[trigger] other.clusters@[l]).candidates@,
        ) by {
            Candidate::lemma_filter_same(
                f,
                g,
                Candidate::cluster_is(self.clusters@[k].cluster_id@),
            );
        }
        assert forall|id: Seq<char>| #[trigger] self.has_cluster(id) <==> other.has_cluster(id) by {
            if self.has_cluster(id) {
                self.lemma_same_cluster(other, id);
            }
            if other.has_cluster(id) {
                other.lemma_same_cluster(self, id);
            }
        }
    }

    proof fn lemma_same_cluster(self, other: EndpointPicker, id: Seq<char>)
        requires
            self.wf(),
            other.wf(),
            Candidate::firsts(self.finalists()) == self.finalists(),
            Candidate::firsts(other.finalists()) == other.finalists(),
            Candidate::same_items(self.finalists(), other.finalists()),
            self.has_cluster(id),
        ensures
            other.has_cluster(id),
    {
        let f = self.finalists();
        let g = other.finalists();
        let p = Candidate::cluster_is(id);
        let k = choose|k: int|
            0 <= k < self.clusters@.len() && (#[trigger] self.clusters@[k]).cluster_id@ == id;
        let c = self.clusters@[k].candidates@[0];
        assert(f.filter(p).contains(c));
        Candidate::lemma_filter_has(f, p, c);
        assert(g.contains(c));
        let i = choose|i: int| 0 <= i < g.len() && g[i] == c;
        assert(other.has_cluster(g[i].workload.cluster_id@));
    }

    /// Whether the candidates are all of waypoints, or all of the target service,
    /// so that their capacities can be compared.
    pub fn setup_is_uniform(&self) -> (r: bool)
        requires
            self.wf(),
        ensures
            r == Candidate::uniform(self.finalists()),
    {
        self.has_waypoints != self.has_directs
    }

    /// The candidates that are drawn among by capacity: all of them in a uniform
    /// setup, where no cluster is drawn; those of the cluster that was drawn
    /// where the setup is not uniform.
    pub fn pool<'b>(&'b self, cluster: Option<&'b ClusterCandidates>) -> (r: &'b Vec<Candidate>)
        requires
            self.wf(),
            cluster is None <==> Candidate::uniform(self.finalists()),
            cluster matches Some(c) ==> self.clusters@.contains(*c),
        ensures
            r@ == match cluster {
                Some(c) => Candidate::firsts(self.finalists()).filter(
                    Candidate::cluster_is(c.cluster_id@),
                ),
                None => Candidate::newest(self.finalists()),
            },
            self.candidates@.len() > 0 ==> Candidate::is_pool(self.finalists(), r@),
    {
        match cluster {
            Some(c) => {
                proof {
                    let k = choose|k: int| 0 <= k < self.clusters@.len() && self.clusters@[k] == *c;
                    assert(self.clusters@[k].candidates@.len() > 0);
                }
                &c.candidates
            },
            None => &self.candidates,
        }
    }

    /// Picks a candidate.
    ///
    /// The load balancing policy of the service comes first: only candidates of
    /// the highest rank are held. Where these are all waypoints, or none is, they
    /// can be compared by their capacity, and one is drawn among all of them in
    /// proportion to it. Where some are and some are not, that would compare
    /// the capacity of servers with that of proxies in front of servers; instead
    /// all clusters count alike, one is drawn, and one of its candidates in
    /// proportion to capacity.
    pub fn pick_candidate(&self) -> (r: Option<&Candidate>)
        requires
            self.wf(),
        ensures
            self.ranking().may_pick(
                self.offered@,
                match r {
                    Some(c) => Some(*c),
                    None => None,
                },
            ),
    {
        proof {
            self.lemma_clusters();
        }
        if self.candidates.len() == 0 {
            return None;
        }
        let cluster = if self.setup_is_uniform() {
            None
        } else {
            choose_ref(&self.clusters)
        };
        let pool = self.pool(cluster);
        proof {
            assert(Candidate::is_pool(self.finalists(), pool@));
        }
        Candidate::draw(pool)
    }
}

} // verus!
