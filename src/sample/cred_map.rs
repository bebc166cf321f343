//! The resolution engine of the sample store: which stored credentials an
//! entry designates, and the reads and writes made through it.
//!
//! An entry is either a *specifier*, which names a `(service, user)` pair
//! and designates every credential of that pair's bucket, or a *wrapper*,
//! which also carries one credential's uuid and designates that credential
//! alone, while it exists. An operation goes through only when exactly one
//! credential is designated; otherwise it reports `NoEntry` or `Ambiguous`.
use vstd::prelude::*;

use crate::attributes::{map_of_pairs, pairs_view};
use super::credential::{has_key, names_creation_date, update_attrs, with_updates, CredId};
use super::dash::{
    bucket_contents, bucket_entries, bucket_insert, bucket_new, bucket_remove, buckets_contents,
    buckets_insert, buckets_keys, buckets_new, buckets_remove, pair_view, Bucket, Buckets,
};
use super::pattern::{is_match, regex_finds, Pattern};
use super::store::{CredValue, RecordView};

verus! {

/// A store's contents: for each `(service, user)` pair, its bucket of
/// credentials by uuid.
pub type StoreModel = Map<(Seq<char>, Seq<char>), Map<Seq<char>, RecordView>>;

/// Every bucket, and the set of buckets, is finite.
pub open spec fn finite_model(s: StoreModel) -> bool {
    &&& s.dom().finite()
    &&& forall|id: (Seq<char>, Seq<char>)| #[trigger] s.contains_key(id) ==> s[id].dom().finite()
}

/// The bucket of a pair; a pair without one has an empty bucket.
pub open spec fn bucket_of(s: StoreModel, id: (Seq<char>, Seq<char>)) -> Map<Seq<char>, RecordView> {
    if s.contains_key(id) {
        s[id]
    } else {
        Map::empty()
    }
}

/// The uuids that an entry designates within a bucket: a wrapper its own
/// uuid, while present; a specifier all of them.
pub open spec fn designated_in(b: Map<Seq<char>, RecordView>, uuid: Option<Seq<char>>) -> Set<Seq<char>> {
    match uuid {
        Some(u) => if b.contains_key(u) {
            set![u]
        } else {
            Set::empty()
        },
        None => b.dom(),
    }
}

/// The uuids that the entry `(id, uuid)` designates in the store.
pub open spec fn designated(s: StoreModel, id: (Seq<char>, Seq<char>), uuid: Option<Seq<char>>) -> Set<Seq<char>> {
    designated_in(bucket_of(s, id), uuid)
}

/// Whether the entry designates exactly one credential.
pub open spec fn resolves(s: StoreModel, id: (Seq<char>, Seq<char>), uuid: Option<Seq<char>>) -> bool {
    designated(s, id, uuid).len() == 1
}

/// The credential an entry designates, when it designates one.
pub open spec fn target(s: StoreModel, id: (Seq<char>, Seq<char>), uuid: Option<Seq<char>>) -> Seq<char> {
    designated(s, id, uuid).choose()
}

/// The uuid of an optional owned string.
pub open spec fn uuid_view(uuid: Option<String>) -> Option<Seq<char>> {
    match uuid {
        Some(u) => Some(u@),
        None => None,
    }
}

/// Why an entry designates no single credential.
pub enum Miss {
    /// It designates none.
    NoEntry,
    /// It designates several: their uuids.
    Ambiguous(Vec<String>),
}

/// Why an attribute update is refused.
pub enum Refusal {
    /// The update names an attribute that cannot change.
    Immutable,
    /// The entry designates no single credential.
    Missed(Miss),
}

/// The list holds each uuid of the set exactly once.
pub open spec fn lists_exactly(v: Seq<String>, set: Set<Seq<char>>) -> bool {
    &&& v.len() == set.len()
    &&& forall|i: int| 0 <= i < v.len() ==> set.contains(#[trigger] v[i]@)
    &&& forall|u: Seq<char>| set.contains(u) ==> exists|i: int| 0 <= i < v.len() && #[trigger] v[i]@ == u
    &&& forall|i: int, j: int| 0 <= i < j < v.len() ==> #[trigger] v[i]@ != #[trigger] v[j]@
}

/// The miss matches what the entry designates: none, or several, listed.
pub open spec fn miss_fits(d: Set<Seq<char>>, e: Miss) -> bool {
    match e {
        Miss::NoEntry => d.len() == 0,
        Miss::Ambiguous(v) => d.len() > 1 && lists_exactly(v@, d),
    }
}

/// A store after writing `secret` through the entry `(id, uuid)`: a
/// specifier with an empty bucket creates the credential `fresh`; an entry
/// that designates one credential replaces its secret; any other leaves the
/// store unchanged.
pub open spec fn after_set(
    s: StoreModel,
    id: (Seq<char>, Seq<char>),
    uuid: Option<Seq<char>>,
    secret: Seq<u8>,
    fresh: Seq<char>,
) -> StoreModel {
    let b = bucket_of(s, id);
    if uuid is None && b.len() == 0 {
        s.insert(id, b.insert(fresh, RecordView { secret, comment: None, creation_date: None }))
    } else if resolves(s, id, uuid) {
        let u = target(s, id, uuid);
        s.insert(id, b.insert(u, RecordView { secret, ..b[u] }))
    } else {
        s
    }
}

/// Whether a write through the entry goes through.
pub open spec fn set_succeeds(s: StoreModel, id: (Seq<char>, Seq<char>), uuid: Option<Seq<char>>) -> bool {
    (uuid is None && bucket_of(s, id).len() == 0) || resolves(s, id, uuid)
}

/// A store after the designated credential is given the value `r`.
pub open spec fn after_change(
    s: StoreModel,
    id: (Seq<char>, Seq<char>),
    uuid: Option<Seq<char>>,
    r: RecordView,
) -> StoreModel {
    let b = bucket_of(s, id);
    s.insert(id, b.insert(target(s, id, uuid), r))
}

/// A store after deleting the credential the entry designates.
pub open spec fn after_delete(s: StoreModel, id: (Seq<char>, Seq<char>), uuid: Option<Seq<char>>) -> StoreModel {
    if resolves(s, id, uuid) {
        s.insert(id, bucket_of(s, id).remove(target(s, id, uuid)))
    } else {
        s
    }
}

/// A store after adding the credential `fresh` with value `r` to a pair's
/// bucket, where no credential of that bucket has that uuid.
pub open spec fn after_add(s: StoreModel, id: (Seq<char>, Seq<char>), fresh: Seq<char>, r: RecordView) -> StoreModel {
    if bucket_of(s, id).contains_key(fresh) {
        s
    } else {
        s.insert(id, bucket_of(s, id).insert(fresh, r))
    }
}

pub(crate) proof fn lemma_singleton(s: Set<Seq<char>>, x: Seq<char>)
    requires
        s.finite(),
        s.len() == 1,
        s.contains(x),
    ensures
        s.choose() == x,
        s == set![x],
{
    let y = s.choose();
    assert(s.contains(y));
    if y != x {
        let pair = set![x, y];
        vstd::set_lib::lemma_len_subset(pair, s);
        assert(pair.remove(x) =~= set![y]);
    }
    let one = set![x];
    assert(one.subset_of(s));
    vstd::set_lib::lemma_len_subset(one, s);
    if !(s =~= one) {
        let z = choose|z: Seq<char>| s.contains(z) && !one.contains(z);
        let two = set![x, z];
        assert(two.remove(x) =~= set![z]);
        vstd::set_lib::lemma_len_subset(two, s);
    }
}

/// Whether the search map asks nothing of `key`, or its pattern matches `text`.
pub open spec fn wanted(m: Map<Seq<char>, Seq<char>>, key: Seq<char>, text: Seq<char>) -> bool {
    !m.contains_key(key) || regex_finds(m[key], text)
}

/// Whether a search selects the credential `u` of the pair `id`: every
/// pattern given, for `service`, `user`, `uuid` and `comment`, matches; a
/// `comment` pattern needs a comment to match.
pub open spec fn selects(m: Map<Seq<char>, Seq<char>>, id: (Seq<char>, Seq<char>), u: Seq<char>, r: RecordView) -> bool {
    &&& wanted(m, "service"@, id.0)
    &&& wanted(m, "user"@, id.1)
    &&& wanted(m, "uuid"@, u)
    &&& m.contains_key("comment"@) ==> r.comment is Some && regex_finds(m["comment"@], r.comment->0)
}

/// Whether the store holds the credential `u` of `id` and the search selects it.
pub open spec fn found(s: StoreModel, m: Map<Seq<char>, Seq<char>>, id: (Seq<char>, Seq<char>), u: Seq<char>) -> bool {
    s.contains_key(id) && s[id].contains_key(u) && selects(m, id, u, s[id][u])
}

/// The text of a found credential.
pub open spec fn hit_view(h: (CredId, String)) -> ((Seq<char>, Seq<char>), Seq<char>) {
    (h.0@, h.1@)
}

/// The list holds each found credential exactly once.
pub open spec fn lists_found(s: StoreModel, m: Map<Seq<char>, Seq<char>>, v: Seq<(CredId, String)>) -> bool {
    &&& forall|i: int| 0 <= i < v.len() ==> found(s, m, (#[trigger] v[i]).0@, v[i].1@)
    &&& forall|id: (Seq<char>, Seq<char>), u: Seq<char>| #[trigger] found(s, m, id, u) ==> exists|i: int|
        0 <= i < v.len() && #[trigger] hit_view(v[i]) == (id, u)
    &&& forall|i: int, j: int| 0 <= i < j < v.len() ==> #[trigger] hit_view(v[i]) != #[trigger] hit_view(v[j])
}

/// The patterns of a search, one per field searched.
pub struct Filter {
    pub service: Option<Pattern>,
    pub user: Option<Pattern>,
    pub comment: Option<Pattern>,
    pub uuid: Option<Pattern>,
}

/// The text of a field's pattern, added to a search map.
pub open spec fn with_pattern(m: Map<Seq<char>, Seq<char>>, key: Seq<char>, p: Option<Pattern>) -> Map<Seq<char>, Seq<char>> {
    match p {
        Some(p) => m.insert(key, p.source()),
        None => m,
    }
}

impl Filter {
    /// The search map: each field searched, with its pattern's text.
    pub open spec fn view(&self) -> Map<Seq<char>, Seq<char>> {
        with_pattern(
            with_pattern(
                with_pattern(with_pattern(Map::empty(), "service"@, self.service), "user"@, self.user),
                "comment"@,
                self.comment,
            ),
            "uuid"@,
            self.uuid,
        )
    }
}

/// Whether the field's pattern, if any, matches `text`.
fn field_matches(p: &Option<Pattern>, text: &str) -> (r: bool)
    ensures
        r == (p is None || regex_finds(p->0.source(), text@)),
{
    match p {
        Some(p) => is_match(p, text),
        None => true,
    }
}

/// Where `u` is among the listed credentials.
fn position(entries: &Vec<(String, CredValue)>, u: &String) -> (r: Option<usize>)
    ensures
        r is None ==> forall|j: int| 0 <= j < entries@.len() ==> entries@[j].0@ != u@,
        r is Some ==> r->0 < entries@.len() && entries@[r->0 as int].0@ == u@,
{
    let mut i: usize = 0;
    while i < entries.len()
        invariant
            i <= entries@.len(),
            forall|j: int| 0 <= j < i ==> entries@[j].0@ != u@,
        decreases entries@.len() - i,
    {
        if entries[i].0 == *u {
            return Some(i);
        }
        i = i + 1;
    }
    None
}

/// The store behind a sample store's lock: its buckets of credentials.
pub struct CredMap {
    buckets: Buckets,
}

impl CredMap {
    /// Each pair's bucket, as values.
    pub closed spec fn view(&self) -> StoreModel {
        buckets_contents(self.buckets)
    }

    /// Well formed: finitely many buckets, each of finitely many credentials.
    pub open spec fn wf(&self) -> bool {
        finite_model(self@)
    }

    /// An empty store.
    pub fn new() -> (r: CredMap)
        ensures
            r@ == StoreModel::empty(),
            r.wf(),
    {
        let r = CredMap { buckets: buckets_new() };
        assert(buckets_contents(r.buckets) =~= StoreModel::empty());
        assert(r@ =~= StoreModel::empty());
        r
    }

    /// Find the credential that `uuid` designates in a bucket, and take it out.
    fn take_from(bucket: &mut Bucket, uuid: &Option<String>) -> (r: Result<(String, CredValue), Miss>)
        requires
            bucket_contents(*old(bucket)).dom().finite(),
        ensures
            ({
                let b = bucket_contents(*old(bucket));
                let d = designated_in(b, uuid_view(*uuid));
                match r {
                    Ok((u, v)) => d.len() == 1 && u@ == d.choose() && v@ == b[u@]
                        && bucket_contents(*final(bucket)) == b.remove(u@),
                    Err(e) => d.len() != 1 && miss_fits(d, e) && bucket_contents(*final(bucket)) == b,
                }
            }),
    {
        let ghost b = bucket_contents(*bucket);
        let ghost d = designated_in(b, uuid_view(*uuid));
        let entries = bucket_entries(bucket);
        let chosen: String = match uuid {
            Some(u) => {
                if position(&entries, u).is_none() {
                    assert(!b.contains_key(u@));
                    assert(d =~= Set::<Seq<char>>::empty());
                    return Err(Miss::NoEntry);
                }
                assert(b.contains_key(u@));
                assert(d =~= set![u@]);
                proof {
                    lemma_singleton(d, u@);
                }
                u.clone()
            },
            None => {
                let n = entries.len();
                if n == 0 {
                    assert(d =~= Set::<Seq<char>>::empty()) by {
                        if d.len() != 0 {
                            let u = d.choose();
                            assert(d.contains(u));
                        }
                    }
                    return Err(Miss::NoEntry);
                } else if n > 1 {
                    let mut keys: Vec<String> = Vec::new();
                    let mut i: usize = 0;
                    while i < n
                        invariant
                            i <= n,
                            n == entries@.len(),
                            keys@.len() == i,
                            forall|j: int| 0 <= j < i ==> #[trigger] keys@[j]@ == entries@[j].0@,
                        decreases n - i,
                    {
                        keys.push(entries[i].0.clone());
                        i = i + 1;
                    }
                    assert(lists_exactly(keys@, d)) by {
                        assert forall|u: Seq<char>| d.contains(u) implies exists|j: int|
                            0 <= j < keys@.len() && #[trigger] keys@[j]@ == u by {
                            let j = choose|j: int| 0 <= j < entries@.len() && #[trigger] entries@[j].0@ == u;
                            assert(keys@[j]@ == u);
                        }
                        assert forall|a: int, c: int| 0 <= a < c < keys@.len() implies #[trigger] keys@[a]@
                            != #[trigger] keys@[c]@ by {
                            assert(entries@[a].0@ != entries@[c].0@);
                        }
                    }
                    return Err(Miss::Ambiguous(keys));
                }
                let u = entries[0].0.clone();
                proof {
                    assert(b.contains_key(entries@[0].0@));
                    lemma_singleton(d, u@);
                }
                u
            },
        };
        match bucket_remove(bucket, &chosen) {
            Some(v) => Ok((chosen, v)),
            None => Err(Miss::NoEntry),
        }
    }

    /// Take out the credential that the entry `(id, uuid)` designates; the
    /// store is unchanged when it designates none or several.
    pub fn take(&mut self, id: &CredId, uuid: &Option<String>) -> (r: Result<(String, CredValue), Miss>)
        requires
            old(self).wf(),
        ensures
            final(self).wf(),
            ({
                let s = old(self)@;
                let d = designated(s, id@, uuid_view(*uuid));
                match r {
                    Ok((u, v)) => resolves(s, id@, uuid_view(*uuid)) && u@ == target(s, id@, uuid_view(*uuid))
                        && v@ == bucket_of(s, id@)[u@]
                        && final(self)@ == s.insert(id@, bucket_of(s, id@).remove(u@)),
                    Err(e) => !resolves(s, id@, uuid_view(*uuid)) && miss_fits(d, e) && final(self)@ == s,
                }
            }),
    {
        let ghost pre = *self;
        let key = id.key();
        match buckets_remove(&mut self.buckets, &key) {
            None => {
                proof {
                    assert(buckets_contents(self.buckets) =~= buckets_contents(pre.buckets));
                    assert(self@ =~= pre@);
                    assert(bucket_of(pre@, id@) =~= Map::<Seq<char>, RecordView>::empty());
                    assert(designated(pre@, id@, uuid_view(*uuid)) =~= Set::<Seq<char>>::empty());
                }
                Err(Miss::NoEntry)
            },
            Some(mut bucket) => {
                let ghost mid = *self;
                proof {
                    assert(pre@.contains_key(id@));
                    assert(bucket_contents(bucket) == pre@[id@]);
                }
                let r = Self::take_from(&mut bucket, uuid);
                let ghost mid_bucket = bucket;
                buckets_insert(&mut self.buckets, key, bucket);
                proof {
                    assert(buckets_contents(self.buckets) =~= buckets_contents(pre.buckets).insert(id@, bucket_contents(mid_bucket)));
                    if r is Err {
                        assert(self@ =~= pre@);
                    }
                }
                r
            },
        }
    }

    /// Put the credential `uuid` with value `value` into the bucket of `id`,
    /// creating the bucket if there is none.
    pub fn put(&mut self, id: &CredId, uuid: String, value: CredValue)
        requires
            old(self).wf(),
        ensures
            final(self).wf(),
            final(self)@ == old(self)@.insert(id@, bucket_of(old(self)@, id@).insert(uuid@, value@)),
    {
        let ghost pre = *self;
        let key = id.key();
        let mut bucket = match buckets_remove(&mut self.buckets, &key) {
            Some(b) => b,
            None => {
                let b = bucket_new();
                assert(bucket_contents(b) =~= Map::<Seq<char>, RecordView>::empty());
                b
            },
        };
        proof {
            if pre@.contains_key(id@) {
                assert(bucket_contents(bucket) == pre@[id@]);
            }
            assert(bucket_contents(bucket) == bucket_of(pre@, id@));
        }
        bucket_insert(&mut bucket, uuid, value);
        let ghost b = bucket;
        buckets_insert(&mut self.buckets, key, bucket);
        proof {
            assert(buckets_contents(self.buckets) =~= buckets_contents(pre.buckets).insert(id@, bucket_contents(b)));
            assert forall|k: (Seq<char>, Seq<char>)| #[trigger] self@.contains_key(k) implies self@[k].dom().finite() by {
                if k != id@ {
                    assert(pre@.contains_key(k));
                }
            }
        }
    }

    proof fn lemma_target(s: StoreModel, id: (Seq<char>, Seq<char>), uuid: Option<Seq<char>>)
        requires
            resolves(s, id, uuid),
        ensures
            bucket_of(s, id).contains_key(target(s, id, uuid)),
            designated(s, id, uuid).contains(target(s, id, uuid)),
            s.contains_key(id),
    {
        let d = designated(s, id, uuid);
        if !d.contains(d.choose()) {
            assert(d =~= Set::<Seq<char>>::empty());
        }
    }

    proof fn lemma_put_back(s: StoreModel, id: (Seq<char>, Seq<char>), u: Seq<char>, r: RecordView)
        requires
            bucket_of(s, id).contains_key(u),
            bucket_of(s, id)[u] == r,
        ensures
            s.insert(id, bucket_of(s, id).remove(u)).insert(id, bucket_of(s.insert(id, bucket_of(s, id).remove(u)), id).insert(u, r)) == s,
    {
        let b = bucket_of(s, id);
        let s1 = s.insert(id, b.remove(u));
        assert(bucket_of(s1, id) == b.remove(u));
        assert(b.remove(u).insert(u, r) =~= b);
        assert(s.contains_key(id));
        assert(s1.insert(id, b) =~= s);
    }

    /// A copy of the credential that the entry designates.
    pub fn read(&mut self, id: &CredId, uuid: &Option<String>) -> (r: Result<CredValue, Miss>)
        requires
            old(self).wf(),
        ensures
            final(self).wf(),
            final(self)@ == old(self)@,
            r is Ok <==> resolves(old(self)@, id@, uuid_view(*uuid)),
            r is Ok ==> r->Ok_0@ == bucket_of(old(self)@, id@)[target(old(self)@, id@, uuid_view(*uuid))],
            r is Err ==> miss_fits(designated(old(self)@, id@, uuid_view(*uuid)), r->Err_0),
    {
        let ghost s = self@;
        match self.take(id, uuid) {
            Ok((u, v)) => {
                let copy = v.clone();
                self.put(id, u, v);
                proof {
                    Self::lemma_target(s, id@, uuid_view(*uuid));
                    Self::lemma_put_back(s, id@, target(s, id@, uuid_view(*uuid)), copy@);
                }
                Ok(copy)
            },
            Err(e) => Err(e),
        }
    }

    /// Write `secret` through the entry: a specifier with an empty bucket
    /// creates the credential `fresh`; an entry that designates one
    /// credential replaces its secret; any other write fails, changing nothing.
    pub fn set_secret(&mut self, id: &CredId, uuid: &Option<String>, secret: &[u8], fresh: String) -> (r: Result<(), Miss>)
        requires
            old(self).wf(),
        ensures
            final(self).wf(),
            final(self)@ == after_set(old(self)@, id@, uuid_view(*uuid), secret@, fresh@),
            r is Ok <==> set_succeeds(old(self)@, id@, uuid_view(*uuid)),
            r is Err ==> miss_fits(designated(old(self)@, id@, uuid_view(*uuid)), r->Err_0),
    {
        let ghost s = self@;
        match self.take(id, uuid) {
            Ok((u, v)) => {
                let mut v = v;
                v.secret = vstd::slice::slice_to_vec(secret);
                self.put(id, u, v);
                proof {
                    let b = bucket_of(s, id@);
                    let t = target(s, id@, uuid_view(*uuid));
                    let s1 = s.insert(id@, b.remove(t));
                    assert(bucket_of(s1, id@).insert(t, v@) =~= b.insert(t, v@));
                    if uuid is None {
                        assert(b.dom() == designated(s, id@, uuid_view(*uuid)));
                        assert(b.len() == 1);
                    }
                    assert(v@ == RecordView { secret: secret@, ..b[t] });
                }
                Ok(())
            },
            Err(Miss::NoEntry) => {
                if uuid.is_none() {
                    let value = CredValue::new(secret);
                    self.put(id, fresh, value);
                    proof {
                        assert(bucket_of(s, id@).dom().len() == 0);
                    }
                    Ok(())
                } else {
                    Err(Miss::NoEntry)
                }
            },
            Err(e) => Err(e),
        }
    }

    /// The uuid of the credential that the entry designates.
    pub fn locate(&mut self, id: &CredId, uuid: &Option<String>) -> (r: Result<String, Miss>)
        requires
            old(self).wf(),
        ensures
            final(self).wf(),
            final(self)@ == old(self)@,
            r is Ok <==> resolves(old(self)@, id@, uuid_view(*uuid)),
            r is Ok ==> r->Ok_0@ == target(old(self)@, id@, uuid_view(*uuid)),
            r is Err ==> miss_fits(designated(old(self)@, id@, uuid_view(*uuid)), r->Err_0),
    {
        let ghost s = self@;
        match self.take(id, uuid) {
            Ok((u, v)) => {
                let found = u.clone();
                let ghost r = v@;
                self.put(id, u, v);
                proof {
                    Self::lemma_target(s, id@, uuid_view(*uuid));
                    Self::lemma_put_back(s, id@, found@, r);
                }
                Ok(found)
            },
            Err(e) => Err(e),
        }
    }

    /// Delete the credential that the entry designates.
    pub fn delete(&mut self, id: &CredId, uuid: &Option<String>) -> (r: Result<(), Miss>)
        requires
            old(self).wf(),
        ensures
            final(self).wf(),
            final(self)@ == after_delete(old(self)@, id@, uuid_view(*uuid)),
            r is Ok <==> resolves(old(self)@, id@, uuid_view(*uuid)),
            r is Err ==> miss_fits(designated(old(self)@, id@, uuid_view(*uuid)), r->Err_0),
    {
        match self.take(id, uuid) {
            Ok(_) => Ok(()),
            Err(e) => Err(e),
        }
    }

    /// Update the attributes of the credential that the entry designates:
    /// `comment`, if among the pairs, is replaced; other keys are ignored.
    /// Pairs that name `creation_date` are refused as a whole, before the
    /// entry is resolved, and change nothing.
    pub fn update(&mut self, id: &CredId, uuid: &Option<String>, attrs: &[(&str, &str)]) -> (r: Result<(), Refusal>)
        requires
            old(self).wf(),
        ensures
            final(self).wf(),
            has_key(pairs_view(attrs@), "creation_date"@) ==> r is Err && r->Err_0 is Immutable
                && final(self)@ == old(self)@,
            !has_key(pairs_view(attrs@), "creation_date"@) ==> (r is Ok <==> resolves(old(self)@, id@, uuid_view(*uuid))),
            r is Ok ==> final(self)@ == after_change(old(self)@, id@, uuid_view(*uuid), with_updates(
                bucket_of(old(self)@, id@)[target(old(self)@, id@, uuid_view(*uuid))],
                map_of_pairs(pairs_view(attrs@)),
            )),
            r is Err ==> final(self)@ == old(self)@,
            r is Err && r->Err_0 is Immutable ==> has_key(pairs_view(attrs@), "creation_date"@),
            r is Err && r->Err_0 is Missed ==> miss_fits(designated(old(self)@, id@, uuid_view(*uuid)), r->Err_0->Missed_0),
    {
        if names_creation_date(attrs) {
            return Err(Refusal::Immutable);
        }
        let ghost s = self@;
        match self.take(id, uuid) {
            Ok((u, v)) => {
                let mut v = v;
                update_attrs(&mut v, attrs);
                self.put(id, u, v);
                proof {
                    let b = bucket_of(s, id@);
                    let t = target(s, id@, uuid_view(*uuid));
                    let s1 = s.insert(id@, b.remove(t));
                    assert(bucket_of(s1, id@).insert(t, v@) =~= b.insert(t, v@));
                }
                Ok(())
            },
            Err(e) => Err(Refusal::Missed(e)),
        }
    }

    /// Add the credential `fresh` with value `value` to the bucket of `id`,
    /// unless the bucket already has a credential with that uuid.
    pub fn add(&mut self, id: &CredId, fresh: String, value: CredValue) -> (r: bool)
        requires
            old(self).wf(),
        ensures
            final(self).wf(),
            r == !bucket_of(old(self)@, id@).contains_key(fresh@),
            final(self)@ == after_add(old(self)@, id@, fresh@, value@),
    {
        let ghost s = self@;
        let probe = Some(fresh.clone());
        match self.take(id, &probe) {
            Ok((u, v)) => {
                let ghost r = v@;
                self.put(id, u, v);
                proof {
                    Self::lemma_target(s, id@, Some(fresh@));
                    Self::lemma_put_back(s, id@, fresh@, r);
                }
                false
            },
            Err(_) => {
                self.put(id, fresh, value);
                true
            },
        }
    }

    /// Make sure the pair `id` has a bucket, empty if it had none.
    fn ensure_bucket(&mut self, id: &CredId)
        requires
            old(self).wf(),
        ensures
            final(self).wf(),
            final(self)@ == old(self)@.insert(id@, bucket_of(old(self)@, id@)),
    {
        let ghost pre = *self;
        let key = id.key();
        let bucket = match buckets_remove(&mut self.buckets, &key) {
            Some(b) => b,
            None => {
                let b = bucket_new();
                assert(bucket_contents(b) =~= Map::<Seq<char>, RecordView>::empty());
                b
            },
        };
        let ghost b = bucket;
        proof {
            if pre@.contains_key(id@) {
                assert(bucket_contents(bucket) == pre@[id@]);
            }
        }
        buckets_insert(&mut self.buckets, key, bucket);
        proof {
            assert(buckets_contents(self.buckets) =~= buckets_contents(pre.buckets).insert(id@, bucket_contents(b)));
            assert forall|k: (Seq<char>, Seq<char>)| #[trigger] self@.contains_key(k) implies self@[k].dom().finite() by {
                if k != id@ {
                    assert(pre@.contains_key(k));
                }
            }
        }
    }

    /// A store rebuilt from a snapshot.
    pub fn import(snapshot: Vec<(CredId, Vec<(String, CredValue)>)>) -> (r: CredMap)
        ensures
            r.wf(),
            r@ == restored(snapshot@),
    {
        let ghost v = snapshot@;
        let mut map = CredMap::new();
        assert(map@ =~= restored(v.take(0)));
        let mut pairs = snapshot;
        let mut i: usize = 0;
        let n = pairs.len();
        while i < n
            invariant
                n == v.len(),
                i <= n,
                pairs@ == v.subrange(i as int, n as int),
                map.wf(),
                map@ == restored(v.take(i as int)),
            decreases n - i,
        {
            let (id, records) = pairs.remove(0);
            assert(v.subrange(i + 1, n as int) =~= v.subrange(i as int, n as int).remove(0));
            let ghost s0 = map@;
            map.ensure_bucket(&id);
            let ghost rv = records@;
            let mut recs = records;
            let m = recs.len();
            let mut j: usize = 0;
            assert(bucket_of(map@, id@) =~= bucket_of(s0, id@).union_prefer_right(records_map(rv.take(0))));
            while j < m
                invariant
                    m == rv.len(),
                    j <= m,
                    recs@ == rv.subrange(j as int, m as int),
                    map.wf(),
                    map@ == s0.insert(id@, bucket_of(s0, id@).union_prefer_right(records_map(rv.take(j as int)))),
                decreases m - j,
            {
                let (u, value) = recs.remove(0);
                assert(rv.subrange(j + 1, m as int) =~= rv.subrange(j as int, m as int).remove(0));
                let ghost before = bucket_of(s0, id@).union_prefer_right(records_map(rv.take(j as int)));
                map.put(&id, u, value);
                proof {
                    assert(rv.take(j + 1).drop_last() =~= rv.take(j as int));
                    assert(bucket_of(s0, id@).union_prefer_right(records_map(rv.take(j + 1))) =~= before.insert(
                        rv[j as int].0@,
                        rv[j as int].1@,
                    ));
                }
                j = j + 1;
            }
            proof {
                assert(rv.take(m as int) =~= rv);
                assert(v.take(i + 1).drop_last() =~= v.take(i as int));
            }
            i = i + 1;
        }
        assert(v.take(n as int) =~= v);
        map
    }

    /// A snapshot of the store: every pair with its bucket.
    pub fn export(&mut self) -> (r: Vec<(CredId, Vec<(String, CredValue)>)>)
        requires
            old(self).wf(),
        ensures
            final(self).wf(),
            final(self)@ == old(self)@,
            snapshot_of(old(self)@, r@),
    {
        let ghost s = self@;
        let ghost bm = buckets_contents(self.buckets);
        let keys = buckets_keys(&self.buckets);
        let mut out: Vec<(CredId, Vec<(String, CredValue)>)> = Vec::new();
        let mut i: usize = 0;
        while i < keys.len()
            invariant
                i <= keys@.len(),
                buckets_contents(self.buckets) == bm,
                self@ == s,
                finite_model(s),
                keys@.len() == bm.len(),
                forall|m: int| 0 <= m < keys@.len() ==> bm.contains_key(#[trigger] pair_view(keys@[m])),
                forall|k: (Seq<char>, Seq<char>)| bm.contains_key(k) ==> exists|m: int|
                    0 <= m < keys@.len() && #[trigger] pair_view(keys@[m]) == k,
                forall|a: int, b: int| 0 <= a < b < keys@.len() ==> #[trigger] pair_view(keys@[a]) != #[trigger] pair_view(keys@[b]),
                out@.len() == i,
                forall|k: int| 0 <= k < i ==> (#[trigger] out@[k]).0@ == pair_view(keys@[k]) && lists_records(
                    s[out@[k].0@],
                    out@[k].1@,
                ),
            decreases keys@.len() - i,
        {
            let id = CredId { service: keys[i].0.clone(), user: keys[i].1.clone() };
            match buckets_remove(&mut self.buckets, &keys[i]) {
                Some(bucket) => {
                    let entries = bucket_entries(&bucket);
                    let ghost b = bucket;
                    buckets_insert(&mut self.buckets, (keys[i].0.clone(), keys[i].1.clone()), bucket);
                    proof {
                        assert(buckets_contents(self.buckets) =~= bm);
                        assert(s[id@] == bucket_contents(b));
                    }
                    out.push((id, entries));
                },
                None => {
                    // every key listed is in the map
                    assert(false);
                },
            }
            i = i + 1;
        }
        proof {
            assert(s.dom() =~= bm.dom());
            assert forall|id: (Seq<char>, Seq<char>)| s.contains_key(id) implies exists|k: int|
                0 <= k < out@.len() && #[trigger] out@[k].0@ == id by {
                let m = choose|m: int| 0 <= m < keys@.len() && #[trigger] pair_view(keys@[m]) == id;
                assert(out@[m].0@ == id);
            }
            assert forall|a: int, b: int| 0 <= a < b < out@.len() implies #[trigger] out@[a].0@ != #[trigger] out@[b].0@ by {
                assert(pair_view(keys@[a]) != pair_view(keys@[b]));
            }
        }
        out
    }

    /// Every credential that the search selects, each once, in some order.
    pub fn search(&mut self, f: &Filter) -> (r: Vec<(CredId, String)>)
        requires
            old(self).wf(),
        ensures
            final(self).wf(),
            final(self)@ == old(self)@,
            lists_found(old(self)@, f@, r@),
    {
        let ghost s = self@;
        let ghost bm = buckets_contents(self.buckets);
        let ghost fm = f@;
        let keys = buckets_keys(&self.buckets);
        let mut out: Vec<(CredId, String)> = Vec::new();
        let mut i: usize = 0;
        while i < keys.len()
            invariant
                i <= keys@.len(),
                buckets_contents(self.buckets) == bm,
                self@ == s,
                s.dom().finite() && finite_model(s),
                fm == f@,
                keys@.len() == bm.len(),
                forall|m: int| 0 <= m < keys@.len() ==> bm.contains_key(#[trigger] pair_view(keys@[m])),
                forall|k: (Seq<char>, Seq<char>)| bm.contains_key(k) ==> exists|m: int|
                    0 <= m < keys@.len() && #[trigger] pair_view(keys@[m]) == k,
                forall|a: int, b: int| 0 <= a < b < keys@.len() ==> #[trigger] pair_view(keys@[a]) != #[trigger] pair_view(keys@[b]),
                forall|k: int| 0 <= k < out@.len() ==> found(s, fm, (#[trigger] out@[k]).0@, out@[k].1@)
                    && before(keys@, i as int, out@[k].0@),
                forall|id: (Seq<char>, Seq<char>), u: Seq<char>| #[trigger] found(s, fm, id, u) && before(keys@, i as int, id)
                    ==> exists|k: int| 0 <= k < out@.len() && #[trigger] hit_view(out@[k]) == (id, u),
                forall|a: int, b: int| 0 <= a < b < out@.len() ==> #[trigger] hit_view(out@[a]) != #[trigger] hit_view(out@[b]),
            decreases keys@.len() - i,
        {
            let ghost cur = pair_view(keys@[i as int]);
            proof {
                lemma_filter_view(*f);
                assert forall|m: int| 0 <= m < i implies pair_view(keys@[m]) != cur by {}
            }
            let service_ok = field_matches(&f.service, keys[i].0.as_str());
            let user_ok = field_matches(&f.user, keys[i].1.as_str());
            if service_ok && user_ok {
                match buckets_remove(&mut self.buckets, &keys[i]) {
                    Some(bucket) => {
                        let entries = bucket_entries(&bucket);
                        let ghost b = bucket;
                        buckets_insert(&mut self.buckets, (keys[i].0.clone(), keys[i].1.clone()), bucket);
                        proof {
                            assert(buckets_contents(self.buckets) =~= bm);
                            assert(s.contains_key(cur) && s[cur] == bucket_contents(b));
                        }
                        let ghost base = out@.len();
                        let mut j: usize = 0;
                        while j < entries.len()
                            invariant
                                j <= entries@.len(),
                                i < keys@.len(),
                                cur == pair_view(keys@[i as int]),
                                s.contains_key(cur),
                                entries@.len() == s[cur].len(),
                                forall|jj: int| 0 <= jj < entries@.len() ==> s[cur].contains_key(#[trigger] entries@[jj].0@)
                                    && s[cur][entries@[jj].0@] == entries@[jj].1@,
                                forall|a: int, c: int| 0 <= a < c < entries@.len() ==> #[trigger] entries@[a].0@
                                    != #[trigger] entries@[c].0@,
                                fm == f@,
                                wanted(fm, "service"@, cur.0),
                                wanted(fm, "user"@, cur.1),
                                forall|m: int| 0 <= m < i ==> pair_view(keys@[m]) != cur,
                                forall|k: int| 0 <= k < out@.len() ==> found(s, fm, (#[trigger] out@[k]).0@, out@[k].1@)
                                    && (before(keys@, i as int, out@[k].0@) || (out@[k].0@ == cur && exists|jj: int|
                                    0 <= jj < j && #[trigger] entries@[jj].0@ == out@[k].1@)),
                                forall|id: (Seq<char>, Seq<char>), u: Seq<char>| #[trigger] found(s, fm, id, u) && before(keys@, i as int, id)
                                    ==> exists|k: int| 0 <= k < out@.len() && #[trigger] hit_view(out@[k]) == (id, u),
                                forall|jj: int| 0 <= jj < j && #[trigger] found(s, fm, cur, entries@[jj].0@)
                                    ==> exists|k: int| 0 <= k < out@.len() && #[trigger] hit_view(out@[k]) == (cur, entries@[jj].0@),
                                forall|a: int, b: int| 0 <= a < b < out@.len() ==> #[trigger] hit_view(out@[a]) != #[trigger] hit_view(out@[b]),
                            decreases entries@.len() - j,
                        {
                            let uuid_ok = field_matches(&f.uuid, entries[j].0.as_str());
                            let comment_ok = match &f.comment {
                                None => true,
                                Some(p) => match &entries[j].1.comment {
                                    None => false,
                                    Some(c) => is_match(p, c.as_str()),
                                },
                            };
                            proof {
                                lemma_filter_view(*f);
                            }
                            if uuid_ok && comment_ok {
                                let hit = (
                                    CredId { service: keys[i].0.clone(), user: keys[i].1.clone() },
                                    entries[j].0.clone(),
                                );
                                proof {
                                    assert(found(s, fm, cur, entries@[j as int].0@));
                                    assert forall|k: int| 0 <= k < out@.len() implies hit_view(out@[k]) != hit_view(hit) by {
                                        if out@[k].0@ == cur {
                                            let jj = choose|jj: int| 0 <= jj < j && #[trigger] entries@[jj].0@ == out@[k].1@;
                                            assert(entries@[jj].0@ != entries@[j as int].0@);
                                        }
                                    }
                                }
                                let ghost prior = out@;
                                out.push(hit);
                                proof {
                                    assert(hit_view(out@[out@.len() - 1]) == (cur, entries@[j as int].0@));
                                    assert forall|k: int| 0 <= k < prior.len() implies out@[k] == prior[k] by {}
                                    assert forall|id: (Seq<char>, Seq<char>), u: Seq<char>| #[trigger] found(s, fm, id, u) && before(keys@, i as int, id)
                                        implies exists|k: int| 0 <= k < out@.len() && #[trigger] hit_view(out@[k]) == (id, u) by {
                                        let k = choose|k: int| 0 <= k < prior.len() && #[trigger] hit_view(prior[k]) == (id, u);
                                        assert(hit_view(out@[k]) == (id, u));
                                    }
                                    assert forall|jj: int| 0 <= jj < j + 1 && #[trigger] found(s, fm, cur, entries@[jj].0@)
                                        implies exists|k: int| 0 <= k < out@.len() && #[trigger] hit_view(out@[k]) == (cur, entries@[jj].0@) by {
                                        if jj < j {
                                            let k = choose|k: int| 0 <= k < prior.len() && #[trigger] hit_view(prior[k]) == (cur, entries@[jj].0@);
                                            assert(hit_view(out@[k]) == (cur, entries@[jj].0@));
                                        } else {
                                            assert(hit_view(out@[prior.len() as int]) == (cur, entries@[jj].0@));
                                        }
                                    }
                                }
                            } else {
                                proof {
                                    assert(!found(s, fm, cur, entries@[j as int].0@));
                                }
                            }
                            j = j + 1;
                        }
                        proof {
                            assert forall|k: int| 0 <= k < out@.len() implies before(keys@, i + 1, (#[trigger] out@[k]).0@) by {
                                if !before(keys@, i as int, out@[k].0@) {
                                    assert(pair_view(keys@[i as int]) == out@[k].0@);
                                }
                            }
                            assert forall|id: (Seq<char>, Seq<char>), u: Seq<char>| #[trigger] found(s, fm, id, u) && before(keys@, i + 1, id)
                                implies exists|k: int| 0 <= k < out@.len() && #[trigger] hit_view(out@[k]) == (id, u) by {
                                if !before(keys@, i as int, id) {
                                    let m = choose|m: int| 0 <= m < i + 1 && #[trigger] pair_view(keys@[m]) == id;
                                    assert(m == i);
                                    let jj = choose|jj: int| 0 <= jj < entries@.len() && #[trigger] entries@[jj].0@ == u;
                                    assert(found(s, fm, cur, entries@[jj].0@));
                                }
                            }
                        }
                    },
                    None => {},
                }
            } else {
                proof {
                    lemma_filter_view(*f);
                    assert forall|id: (Seq<char>, Seq<char>), u: Seq<char>| #[trigger] found(s, fm, id, u) && before(keys@, i + 1, id)
                        implies before(keys@, i as int, id) by {
                        if !before(keys@, i as int, id) {
                            let m = choose|m: int| 0 <= m < i + 1 && #[trigger] pair_view(keys@[m]) == id;
                            assert(m == i);
                        }
                    }
                    assert forall|k: int| 0 <= k < out@.len() implies before(keys@, i + 1, (#[trigger] out@[k]).0@) by {
                        let m = choose|m: int| 0 <= m < i && #[trigger] pair_view(keys@[m]) == out@[k].0@;
                    }
                }
            }
            i = i + 1;
        }
        proof {
            assert forall|id: (Seq<char>, Seq<char>), u: Seq<char>| #[trigger] found(s, fm, id, u) implies before(keys@, keys@.len() as int, id) by {
                let m = choose|m: int| 0 <= m < keys@.len() && #[trigger] pair_view(keys@[m]) == id;
            }
        }
        out
    }
}

/// The list holds each credential of the bucket exactly once, with its value.
pub open spec fn lists_records(b: Map<Seq<char>, RecordView>, v: Seq<(String, CredValue)>) -> bool {
    &&& v.len() == b.len()
    &&& forall|i: int| 0 <= i < v.len() ==> b.contains_key(#[trigger] v[i].0@) && b[v[i].0@] == v[i].1@
    &&& forall|u: Seq<char>| b.contains_key(u) ==> exists|i: int| 0 <= i < v.len() && #[trigger] v[i].0@ == u
    &&& forall|i: int, j: int| 0 <= i < j < v.len() ==> #[trigger] v[i].0@ != #[trigger] v[j].0@
}

/// A snapshot of a store: each pair once, with its bucket listed.
pub open spec fn snapshot_of(s: StoreModel, v: Seq<(CredId, Vec<(String, CredValue)>)>) -> bool {
    &&& v.len() == s.len()
    &&& forall|i: int| 0 <= i < v.len() ==> s.contains_key(#[trigger] v[i].0@) && lists_records(s[v[i].0@], v[i].1@)
    &&& forall|id: (Seq<char>, Seq<char>)| s.contains_key(id) ==> exists|i: int| 0 <= i < v.len() && #[trigger] v[i].0@ == id
    &&& forall|i: int, j: int| 0 <= i < j < v.len() ==> #[trigger] v[i].0@ != #[trigger] v[j].0@
}

/// The credentials of a list of records; a later record overrides an
/// earlier one with the same uuid.
pub open spec fn records_map(v: Seq<(String, CredValue)>) -> Map<Seq<char>, RecordView>
    decreases v.len(),
{
    if v.len() == 0 {
        Map::empty()
    } else {
        records_map(v.drop_last()).insert(v.last().0@, v.last().1@)
    }
}

/// The store rebuilt from a snapshot, pair after pair; a pair listed twice
/// gets the records of both listings.
pub open spec fn restored(v: Seq<(CredId, Vec<(String, CredValue)>)>) -> StoreModel
    decreases v.len(),
{
    if v.len() == 0 {
        Map::empty()
    } else {
        let s = restored(v.drop_last());
        let id = v.last().0@;
        s.insert(id, bucket_of(s, id).union_prefer_right(records_map(v.last().1@)))
    }
}

/// Whether `id` is among the first `i` keys.
pub open spec fn before(keys: Seq<(String, String)>, i: int, id: (Seq<char>, Seq<char>)) -> bool {
    exists|m: int| 0 <= m < i && #[trigger] pair_view(keys[m]) == id
}


pub proof fn lemma_filter_view(f: Filter)
    ensures
        f@.contains_key("service"@) <==> f.service is Some,
        f.service is Some ==> f@["service"@] == f.service->0.source(),
        f@.contains_key("user"@) <==> f.user is Some,
        f.user is Some ==> f@["user"@] == f.user->0.source(),
        f@.contains_key("comment"@) <==> f.comment is Some,
        f.comment is Some ==> f@["comment"@] == f.comment->0.source(),
        f@.contains_key("uuid"@) <==> f.uuid is Some,
        f.uuid is Some ==> f@["uuid"@] == f.uuid->0.source(),
{
    reveal_strlit("service");
    reveal_strlit("user");
    reveal_strlit("comment");
    reveal_strlit("uuid");
    assert("service"@[0] != "user"@[0]);
    assert("service"@[0] != "comment"@[0]);
    assert("service"@[0] != "uuid"@[0]);
    assert("user"@[0] != "comment"@[0]);
    assert("user"@[1] != "uuid"@[1]);
    assert("comment"@[0] != "uuid"@[0]);
}

} // verus!
