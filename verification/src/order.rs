//! Ordering and searching lists.

use itertools::Itertools;
use vstd::prelude::*;

use crate::address::IpAddress;

verus! {

pub open spec fn family_is(like: IpAddress) -> spec_fn(IpAddress) -> bool {
    |ip: IpAddress| ip.same_family(like)
}

pub open spec fn family_is_not(like: IpAddress) -> spec_fn(IpAddress) -> bool {
    |ip: IpAddress| !ip.same_family(like)
}

/// The first address of the family of `like`; where there is none, the first
/// address.
pub open spec fn like_or_first(ips: Seq<IpAddress>, like: IpAddress) -> Option<IpAddress> {
    match crate::search::first(ips, family_is(like)) {
        Some(ip) => Some(ip),
        None => if ips.len() > 0 {
            Some(ips[0])
        } else {
            None
        },
    }
}

/// `itertools::Itertools::find_or_first` over a list of addresses, asking for
/// the family of `like`: the first address that is of that family, or else the
/// first address, or nothing where the list is empty.
#[verifier::external_body]
pub(crate) fn find_or_first(ips: Vec<IpAddress>, like: IpAddress) -> (r: Option<IpAddress>)
    ensures
        r == like_or_first(ips@, like),
{
    ips.into_iter().find_or_first(|ip| ip.is_same_family(&like))
}

pub open spec fn key_is<T>(key: Seq<char>) -> spec_fn((String, T)) -> bool {
    |item: (String, T)| item.0@ == key
}

/// `itertools::Itertools::sorted_by_key` over a list, by the first part of its
/// items: the same items, so that no key comes behind a larger one, and so that
/// the items with one key keep their order. Strings are ordered by their bytes,
/// which is the order of their code points.
#[verifier::external_body]
pub(crate) fn sorted_by_key<T>(items: Vec<(String, T)>) -> (r: Vec<(String, T)>)
    ensures
        r@.len() == items@.len(),
        forall|i: int, j: int|
            0 <= i < j < r@.len() ==> crate::text::text_le(
                (#[trigger] r@[i]).0@,
                (#[trigger] r@[j]).0@,
            ),
        forall|key: Seq<char>|
            #![trigger r@.filter(key_is::<T>(key))]
            r@.filter(key_is::<T>(key)) == items@.filter(key_is::<T>(key)),
{
    items.into_iter().sorted_by_key(|item| item.0.clone()).collect()
}

} // verus!
