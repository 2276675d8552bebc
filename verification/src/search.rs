//! Searching sequences: the first and the last element with a property.

use vstd::prelude::*;

verus! {

/// The first element of `s` with property `p`, if any has it.
pub open spec fn first<T>(s: Seq<T>, p: spec_fn(T) -> bool) -> Option<T>
    decreases s.len(),
{
    if s.len() == 0 {
        None
    } else if p(s[0]) {
        Some(s[0])
    } else {
        first(s.drop_first(), p)
    }
}

/// The last element of `s` with property `p`, if any has it.
pub open spec fn last<T>(s: Seq<T>, p: spec_fn(T) -> bool) -> Option<T>
    decreases s.len(),
{
    if s.len() == 0 {
        None
    } else if p(s.last()) {
        Some(s.last())
    } else {
        last(s.drop_last(), p)
    }
}

/// The element at `i` is the first one with the property.
pub proof fn lemma_first_at<T>(s: Seq<T>, p: spec_fn(T) -> bool, i: int)
    requires
        0 <= i < s.len(),
        p(s[i]),
        forall|j: int| 0 <= j < i ==> !p(#[trigger] s[j]),
    ensures
        first(s, p) == Some(s[i]),
    decreases s.len(),
{
    if i > 0 {
        assert(!p(s[0]));
        assert forall|j: int| 0 <= j < i - 1 implies !p(#[trigger] s.drop_first()[j]) by {
            assert(s.drop_first()[j] == s[j + 1]);
        }
        lemma_first_at(s.drop_first(), p, i - 1);
    }
}

/// `first` finds nothing where no element has the property.
pub proof fn lemma_first_none<T>(s: Seq<T>, p: spec_fn(T) -> bool)
    requires
        forall|j: int| 0 <= j < s.len() ==> !p(#[trigger] s[j]),
    ensures
        first(s, p) is None,
    decreases s.len(),
{
    if s.len() > 0 {
        assert forall|j: int| 0 <= j < s.len() - 1 implies !p(#[trigger] s.drop_first()[j]) by {
            assert(s.drop_first()[j] == s[j + 1]);
        }
        lemma_first_none(s.drop_first(), p);
    }
}

/// What `first` finds is an element with the property; it finds nothing only
/// where no element has it.
pub proof fn lemma_first_is<T>(s: Seq<T>, p: spec_fn(T) -> bool)
    ensures
        first(s, p) matches Some(x) ==> s.contains(x) && p(x),
        first(s, p) is None <==> (forall|j: int| 0 <= j < s.len() ==> !p(#[trigger] s[j])),
    decreases s.len(),
{
    if s.len() > 0 {
        if p(s[0]) {
            assert(s.contains(s[0]));
        } else {
            let rest = s.drop_first();
            lemma_first_is(rest, p);
            if first(rest, p) is Some {
                let x = first(rest, p)->0;
                let k = choose|k: int| 0 <= k < rest.len() && rest[k] == x;
                assert(s[k + 1] == x);
                assert(!(forall|j: int| 0 <= j < s.len() ==> !p(#[trigger] s[j])));
            } else {
                assert forall|j: int| 0 <= j < s.len() implies !p(#[trigger] s[j]) by {
                    if j > 0 {
                        assert(s[j] == rest[j - 1]);
                    }
                }
            }
        }
    }
}

/// The element at `i` is the last one with the property.
pub proof fn lemma_last_at<T>(s: Seq<T>, p: spec_fn(T) -> bool, i: int)
    requires
        0 <= i < s.len(),
        p(s[i]),
        forall|j: int| i < j < s.len() ==> !p(#[trigger] s[j]),
    ensures
        last(s, p) == Some(s[i]),
    decreases s.len(),
{
    if i < s.len() - 1 {
        assert(!p(s[s.len() - 1]));
        lemma_last_at(s.drop_last(), p, i);
    }
}

/// `last` finds nothing where no element has the property.
pub proof fn lemma_last_none<T>(s: Seq<T>, p: spec_fn(T) -> bool)
    requires
        forall|j: int| 0 <= j < s.len() ==> !p(#[trigger] s[j]),
    ensures
        last(s, p) is None,
    decreases s.len(),
{
    if s.len() > 0 {
        lemma_last_none(s.drop_last(), p);
    }
}

/// What `last` finds is an element with the property; it finds nothing only
/// where no element has it.
pub proof fn lemma_last_is<T>(s: Seq<T>, p: spec_fn(T) -> bool)
    ensures
        last(s, p) matches Some(x) ==> s.contains(x) && p(x),
        last(s, p) is None <==> (forall|j: int| 0 <= j < s.len() ==> !p(#[trigger] s[j])),
    decreases s.len(),
{
    if s.len() > 0 {
        let end = s.len() - 1;
        if p(s.last()) {
            assert(s[end] == s.last());
        } else {
            let rest = s.drop_last();
            lemma_last_is(rest, p);
            if last(rest, p) is Some {
                let x = last(rest, p)->0;
                let k = choose|k: int| 0 <= k < rest.len() && rest[k] == x;
                assert(s[k] == x);
            } else {
                assert forall|j: int| 0 <= j < s.len() implies !p(#[trigger] s[j]) by {
                    if j < end {
                        assert(s[j] == rest[j]);
                    }
                }
            }
        }
    }
}

/// Filtering one more element keeps it where it has the property.
pub proof fn lemma_filter_step<T>(s: Seq<T>, p: spec_fn(T) -> bool, i: int)
    requires
        0 <= i < s.len(),
    ensures
        s.take(i + 1).filter(p) == (if p(s[i]) {
            s.take(i).filter(p).push(s[i])
        } else {
            s.take(i).filter(p)
        }),
{
    reveal(Seq::filter);
    assert(s.take(i + 1).drop_last() =~= s.take(i));
}

/// What one more element changes for the first one with the property.
pub proof fn lemma_first_push<T>(s: Seq<T>, x: T, p: spec_fn(T) -> bool)
    ensures
        first(s.push(x), p) == match first(s, p) {
            Some(y) => Some(y),
            None => if p(x) {
                Some(x)
            } else {
                None
            },
        },
    decreases s.len(),
{
    if s.len() == 0 {
        assert(s.push(x).drop_first() =~= s);
    } else {
        assert(s.push(x).drop_first() =~= s.drop_first().push(x));
        lemma_first_push(s.drop_first(), x, p);
    }
}

/// Filtering does not change what comes first where that is kept.
pub proof fn lemma_first_filter<T>(s: Seq<T>, keep: spec_fn(T) -> bool, p: spec_fn(T) -> bool)
    requires
        first(s, p) matches Some(x) ==> keep(x),
    ensures
        first(s.filter(keep), p) == first(s, p),
    decreases s.len(),
{
    reveal(Seq::filter);
    if s.len() > 0 {
        let rest = s.drop_last();
        assert(s =~= rest.push(s.last()));
        lemma_first_push(rest, s.last(), p);
        lemma_first_filter(rest, keep, p);
        lemma_first_push(rest.filter(keep), s.last(), p);
    }
}

/// Filtering does not change what comes last where that is kept.
pub proof fn lemma_last_filter<T>(s: Seq<T>, keep: spec_fn(T) -> bool, p: spec_fn(T) -> bool)
    requires
        last(s, p) matches Some(x) ==> keep(x),
    ensures
        last(s.filter(keep), p) == last(s, p),
    decreases s.len(),
{
    reveal(Seq::filter);
    if s.len() > 0 {
        let rest = s.drop_last();
        if keep(s.last()) {
            assert(s.filter(keep).drop_last() =~= rest.filter(keep));
        }
        if !p(s.last()) {
            lemma_last_filter(rest, keep, p);
        }
    }
}

/// What comes of an element is in what comes of the list.
pub proof fn lemma_filter_map_has<T, U>(s: Seq<T>, f: spec_fn(T) -> Option<U>, i: int)
    requires
        0 <= i < s.len(),
        f(s[i]) is Some,
    ensures
        s.filter_map(f).contains(f(s[i])->0),
    decreases s.len(),
{
    let rest = s.drop_last();
    let found = s.filter_map(f);
    let x = f(s[i])->0;
    if i == s.len() - 1 {
        assert(found[found.len() - 1] == x);
    } else {
        assert(rest[i] == s[i]);
        lemma_filter_map_has(rest, f, i);
        let k = choose|k: int| 0 <= k < rest.filter_map(f).len() && rest.filter_map(f)[k] == x;
        assert(found[k] == x);
    }
}

/// No more comes of a list than it has elements.
pub proof fn lemma_filter_map_len<T, U>(s: Seq<T>, f: spec_fn(T) -> Option<U>)
    ensures
        s.filter_map(f).len() <= s.len(),
    decreases s.len(),
{
    if s.len() > 0 {
        lemma_filter_map_len(s.drop_last(), f);
    }
}

/// What comes of two lists is what comes of each.
pub proof fn lemma_filter_map_add<T, U>(s: Seq<T>, t: Seq<T>, f: spec_fn(T) -> Option<U>)
    ensures
        (s + t).filter_map(f) == s.filter_map(f) + t.filter_map(f),
    decreases t.len(),
{
    if t.len() == 0 {
        assert(s + t =~= s);
    } else {
        lemma_filter_map_add(s, t.drop_last(), f);
        assert((s + t).drop_last() =~= s + t.drop_last());
    }
    assert((s + t).filter_map(f) =~= s.filter_map(f) + t.filter_map(f));
}

/// What comes first with a property stands somewhere, and nothing before it has
/// the property.
pub proof fn lemma_first_index<T>(s: Seq<T>, p: spec_fn(T) -> bool)
    ensures
        match first(s, p) {
            Some(x) => exists|i: int|
                0 <= i < s.len() && #[trigger] s[i] == x && p(x) && (forall|j: int|
                    0 <= j < i ==> !p(#[trigger] s[j])),
            None => forall|j: int| 0 <= j < s.len() ==> !p(#[trigger] s[j]),
        },
    decreases s.len(),
{
    if s.len() > 0 {
        if p(s[0]) {
            assert(s[0] == s[0]);
        } else {
            let rest = s.drop_first();
            lemma_first_index(rest, p);
            match first(rest, p) {
                Some(x) => {
                    let i = choose|i: int|
                        0 <= i < rest.len() && #[trigger] rest[i] == x && p(x) && (forall|j: int|
                            0 <= j < i ==> !p(#[trigger] rest[j]));
                    assert forall|j: int| 0 <= j < i + 1 implies !p(#[trigger] s[j]) by {
                        if j > 0 {
                            assert(!p(rest[j - 1]));
                        }
                    }
                    assert(s[i + 1] == x);
                },
                None => {
                    assert forall|j: int| 0 <= j < s.len() implies !p(#[trigger] s[j]) by {
                        if j > 0 {
                            assert(!p(rest[j - 1]));
                        }
                    }
                },
            }
        }
    }
}

/// What comes last with a property stands somewhere, and nothing behind it has
/// the property.
pub proof fn lemma_last_index<T>(s: Seq<T>, p: spec_fn(T) -> bool)
    ensures
        match last(s, p) {
            Some(x) => exists|i: int|
                0 <= i < s.len() && #[trigger] s[i] == x && p(x) && (forall|j: int|
                    i < j < s.len() ==> !p(#[trigger] s[j])),
            None => forall|j: int| 0 <= j < s.len() ==> !p(#[trigger] s[j]),
        },
    decreases s.len(),
{
    if s.len() > 0 {
        let end = s.len() - 1;
        if p(s.last()) {
            assert(s[end] == s.last());
        } else {
            let rest = s.drop_last();
            lemma_last_index(rest, p);
            match last(rest, p) {
                Some(x) => {
                    let i = choose|i: int|
                        0 <= i < rest.len() && #[trigger] rest[i] == x && p(x) && (forall|j: int|
                            i < j < rest.len() ==> !p(#[trigger] rest[j]));
                    assert forall|j: int| i < j < s.len() implies !p(#[trigger] s[j]) by {
                        if j < end {
                            assert(!p(rest[j]));
                        }
                    }
                    assert(s[i] == x);
                },
                None => {
                    assert forall|j: int| 0 <= j < s.len() implies !p(#[trigger] s[j]) by {
                        if j < end {
                            assert(!p(rest[j]));
                        }
                    }
                },
            }
        }
    }
}

/// Two lists together hold what one of them holds.
pub proof fn lemma_add_contains<T>(a: Seq<T>, b: Seq<T>, x: T)
    ensures
        (a + b).contains(x) <==> a.contains(x) || b.contains(x),
{
    if a.contains(x) {
        let k = choose|k: int| 0 <= k < a.len() && a[k] == x;
        assert((a + b)[k] == x);
    }
    if b.contains(x) {
        let k = choose|k: int| 0 <= k < b.len() && b[k] == x;
        assert((a + b)[a.len() + k] == x);
    }
    if (a + b).contains(x) {
        let k = choose|k: int| 0 <= k < (a + b).len() && (a + b)[k] == x;
        if k < a.len() {
            assert(a[k] == x);
        } else {
            assert(b[k - a.len()] == x);
        }
    }
}

/// Filtering drops nothing where every element has the property.
pub proof fn lemma_filter_all<T>(s: Seq<T>, p: spec_fn(T) -> bool)
    requires
        forall|j: int| 0 <= j < s.len() ==> p(#[trigger] s[j]),
    ensures
        s.filter(p) == s,
    decreases s.len(),
{
    reveal(Seq::filter);
    if s.len() > 0 {
        lemma_filter_all(s.drop_last(), p);
        assert(s.drop_last().push(s.last()) =~= s);
    }
}

/// Filtering drops the element at `i` where that is the only one without the
/// property.
pub proof fn lemma_filter_but<T>(s: Seq<T>, p: spec_fn(T) -> bool, i: int)
    requires
        0 <= i < s.len(),
        !p(s[i]),
        forall|j: int| 0 <= j < s.len() && j != i ==> p(#[trigger] s[j]),
    ensures
        s.filter(p) == s.remove(i),
    decreases s.len(),
{
    reveal(Seq::filter);
    if i == s.len() - 1 {
        lemma_filter_all(s.drop_last(), p);
        assert(s.remove(i) =~= s.drop_last());
    } else {
        lemma_filter_but(s.drop_last(), p, i);
        assert(s.drop_last().remove(i).push(s.last()) =~= s.remove(i));
    }
}

} // verus!
