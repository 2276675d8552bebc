//! Random choices.

use rand::seq::{IndexedRandom, IteratorRandom};
use vstd::prelude::*;

use crate::picker::Candidate;

verus! {

/// The sum of the weights of `items`.
pub open spec fn total_weight<T>(items: Seq<(T, u64)>) -> nat
    decreases items.len(),
{
    if items.len() == 0 {
        0
    } else {
        total_weight(items.drop_last()) + items.last().1 as nat
    }
}

/// `rand::seq::IndexedRandom::choose` with the generator of the thread: one
/// element of the list, and nothing only where the list is empty. Which element
/// it is, is left to chance.
#[verifier::external_body]
pub(crate) fn choose_ref<T>(items: &Vec<T>) -> (r: Option<&T>)
    ensures
        match r {
            Some(x) => items@.contains(*x),
            None => items@.len() == 0,
        },
{
    items.choose(&mut rand::rng())
}

/// `rand::seq::IteratorRandom::choose` with the generator of the thread, over
/// the elements of a list: one of them, and nothing only where there is none.
/// Which element it is, is left to chance.
#[verifier::external_body]
pub(crate) fn choose_from<T>(items: Vec<T>) -> (r: Option<T>)
    ensures
        match r {
            Some(x) => items@.contains(x),
            None => items@.len() == 0,
        },
{
    items.into_iter().choose(&mut rand::rng())
}

/// `rand::seq::IndexedRandom::choose_weighted` with the generator of the
/// thread, over candidates whose capacities are their weights: one of those
/// whose weight is not zero. It fails where the weights sum up to zero, as those
/// of an empty list do, and where their sum does not fit in 64 bits. Which
/// candidate it is, is left to chance.
#[verifier::external_body]
pub(crate) fn choose_weighted<'a, 'b>(options: &'b Vec<(&'a Candidate, u64)>) -> (r: Option<
    &'b &'a Candidate,
>)
    requires
        Candidate::by_capacity(options@),
    ensures
        r is None <==> (total_weight(options@) == 0 || total_weight(options@) > u64::MAX),
        r matches Some(x) ==> exists|i: int|
            0 <= i < options@.len() && (#[trigger] options@[i]).0 == *x && options@[i].1 > 0,
{
    options.choose_weighted(&mut rand::rng(), |option| option.1).ok().map(|option| &option.0)
}

} // verus!
