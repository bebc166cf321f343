//! The concurrent maps that hold a sample store's credentials.
//!
//! Both levels of the store are `dashmap::DashMap`s: the outer one from a
//! `(service, user)` pair to a bucket, each bucket from a credential's uuid to
//! its stored value. What each map holds is named by a spec function, and
//! every operation the store uses is a wrapper stating its effect on it.
use vstd::prelude::*;
use dashmap::DashMap;

use super::store::{CredValue, RecordView};

verus! {

#[verifier::external_type_specification]
#[verifier::external_body]
#[verifier::reject_recursive_types(K)]
#[verifier::reject_recursive_types(V)]
#[verifier::reject_recursive_types(S)]
pub struct ExDashMap<K, V, S>(DashMap<K, V, S>);

/// The records of one bucket, by uuid.
pub type Bucket = DashMap<String, CredValue>;

/// The buckets of a store, by `(service, user)`.
pub type Buckets = DashMap<(String, String), Bucket>;

/// What a bucket holds: each uuid's record.
pub uninterp spec fn bucket_contents(b: Bucket) -> Map<Seq<char>, RecordView>;

/// What the outer map holds: each `(service, user)` pair's records, by uuid.
pub uninterp spec fn buckets_contents(m: Buckets) -> Map<PairText, Map<Seq<char>, RecordView>>;

/// The text of a `(service, user)` pair.
pub type PairText = (Seq<char>, Seq<char>);

/// The view of a `(service, user)` key.
pub open spec fn pair_view(k: (String, String)) -> (Seq<char>, Seq<char>) {
    (k.0@, k.1@)
}

/// Relies on `DashMap::new`: a new map is empty.
#[verifier::external_body]
pub(crate) fn bucket_new() -> (r: Bucket)
    ensures
        bucket_contents(r).dom() == Set::<Seq<char>>::empty(),
{
    DashMap::new()
}

/// Relies on `DashMap::insert`: the key now maps to the value, others are kept.
#[verifier::external_body]
pub(crate) fn bucket_insert(b: &mut Bucket, uuid: String, value: CredValue)
    ensures
        bucket_contents(*final(b)) == bucket_contents(*old(b)).insert(uuid@, value@),
{
    b.insert(uuid, value);
}

/// Relies on `DashMap::remove`: the key's value is handed back and the key is gone.
#[verifier::external_body]
pub(crate) fn bucket_remove(b: &mut Bucket, uuid: &String) -> (r: Option<CredValue>)
    ensures
        bucket_contents(*final(b)) == bucket_contents(*old(b)).remove(uuid@),
        r is Some <==> bucket_contents(*old(b)).contains_key(uuid@),
        r is Some ==> r->0@ == bucket_contents(*old(b))[uuid@],
{
    b.remove(uuid).map(|pair| pair.1)
}

/// Relies on `DashMap::iter`: each key once, in some order, with a copy of its value.
#[verifier::external_body]
pub(crate) fn bucket_entries(b: &Bucket) -> (r: Vec<(String, CredValue)>)
    ensures
        r@.len() == bucket_contents(*b).len(),
        forall|i: int| 0 <= i < r@.len() ==> {
            &&& bucket_contents(*b).contains_key(#[trigger] r@[i].0@)
            &&& bucket_contents(*b)[r@[i].0@] == r@[i].1@
        },
        forall|u: Seq<char>| bucket_contents(*b).contains_key(u) ==>
            exists|i: int| 0 <= i < r@.len() && #[trigger] r@[i].0@ == u,
        forall|i: int, j: int| 0 <= i < j < r@.len() ==> #[trigger] r@[i].0@ != #[trigger] r@[j].0@,
{
    b.iter().map(|item| (item.key().clone(), item.value().clone())).collect()
}

/// Relies on `DashMap::new`: a new map is empty.
#[verifier::external_body]
pub(crate) fn buckets_new() -> (r: Buckets)
    ensures
        buckets_contents(r).dom() == Set::<PairText>::empty(),
{
    DashMap::new()
}

/// Relies on `DashMap::insert`: the key now maps to the bucket, others are kept.
#[verifier::external_body]
pub(crate) fn buckets_insert(m: &mut Buckets, key: (String, String), bucket: Bucket)
    ensures
        buckets_contents(*final(m)) == buckets_contents(*old(m)).insert(pair_view(key), bucket_contents(bucket)),
{
    m.insert(key, bucket);
}

/// Relies on `DashMap::remove`: the key's bucket is handed back and the key is gone.
#[verifier::external_body]
pub(crate) fn buckets_remove(m: &mut Buckets, key: &(String, String)) -> (r: Option<Bucket>)
    ensures
        buckets_contents(*final(m)) == buckets_contents(*old(m)).remove(pair_view(*key)),
        r is Some <==> buckets_contents(*old(m)).contains_key(pair_view(*key)),
        r is Some ==> bucket_contents(r->0) == buckets_contents(*old(m))[pair_view(*key)],
{
    m.remove(key).map(|pair| pair.1)
}

/// Relies on `DashMap::iter`: each key once, in some order.
#[verifier::external_body]
pub(crate) fn buckets_keys(m: &Buckets) -> (r: Vec<(String, String)>)
    ensures
        r@.len() == buckets_contents(*m).len(),
        forall|i: int| 0 <= i < r@.len() ==> buckets_contents(*m).contains_key(
            #[trigger] pair_view(r@[i]),
        ),
        forall|k: (Seq<char>, Seq<char>)| buckets_contents(*m).contains_key(k) ==>
            exists|i: int| 0 <= i < r@.len() && #[trigger] pair_view(r@[i]) == k,
        forall|i: int, j: int| 0 <= i < j < r@.len() ==> #[trigger] pair_view(r@[i]) != #[trigger] pair_view(r@[j]),
{
    m.iter().map(|item| item.key().clone()).collect()
}

} // verus!
