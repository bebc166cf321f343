//! Laws of the resolution engine, stated over a store's contents and the
//! outcomes that `CredMap`'s operations are specified by.
use vstd::prelude::*;
use vstd::utf8::{decode_utf8, encode_utf8, encode_utf8_decode_utf8, encode_utf8_valid_utf8, valid_utf8};

use super::cred_map::{
    after_add, after_delete, after_set, bucket_of, designated, finite_model, lists_records, miss_fits,
    lemma_singleton, records_map, resolves, restored, set_succeeds, snapshot_of, target, Miss, StoreModel,
};
use super::credential::CredId;
use super::store::CredValue;
use super::credential::with_updates;
use super::store::RecordView;

verus! {

proof fn lemma_resolved(s: StoreModel, id: (Seq<char>, Seq<char>), uuid: Option<Seq<char>>)
    requires
        finite_model(s),
        resolves(s, id, uuid),
    ensures
        bucket_of(s, id).contains_key(target(s, id, uuid)),
        designated(s, id, uuid) == set![target(s, id, uuid)],
        uuid is Some ==> target(s, id, uuid) == uuid->0,
{
    let d = designated(s, id, uuid);
    if !d.contains(d.choose()) {
        assert(d =~= Set::<Seq<char>>::empty());
    }
    if s.contains_key(id) {
        assert(s[id].dom().finite());
    } else {
        assert(bucket_of(s, id).dom() =~= Set::<Seq<char>>::empty());
    }
    lemma_singleton(d, d.choose());
}

/// After a write that goes through, the entry designates one credential,
/// holding the secret written; for a wrapper, still its own.
proof fn lemma_write_then_read(
    s: StoreModel,
    id: (Seq<char>, Seq<char>),
    uuid: Option<Seq<char>>,
    secret: Seq<u8>,
    fresh: Seq<char>,
)
    requires
        finite_model(s),
        set_succeeds(s, id, uuid),
    ensures
        ({
            let t = after_set(s, id, uuid, secret, fresh);
            &&& finite_model(t)
            &&& resolves(t, id, uuid)
            &&& bucket_of(t, id)[target(t, id, uuid)].secret == secret
            &&& uuid is Some ==> target(t, id, uuid) == uuid->0
        }),
{
    let b = bucket_of(s, id);
    let t = after_set(s, id, uuid, secret, fresh);
    if s.contains_key(id) {
        assert(s[id].dom().finite());
    } else {
        assert(b.dom() =~= Set::<Seq<char>>::empty());
    }
    if uuid is None && b.len() == 0 {
        assert(b.dom() =~= Set::<Seq<char>>::empty());
        let nb = b.insert(fresh, RecordView { secret, comment: None, creation_date: None });
        assert(nb.dom() =~= set![fresh]);
        assert(bucket_of(t, id) == nb);
        assert(designated(t, id, uuid) =~= set![fresh]);
        lemma_singleton(set![fresh], fresh);
    } else {
        lemma_resolved(s, id, uuid);
        let u = target(s, id, uuid);
        let nb = b.insert(u, RecordView { secret, ..b[u] });
        assert(nb.dom() =~= b.dom());
        assert(bucket_of(t, id) == nb);
        assert(designated(t, id, uuid) =~= designated(s, id, uuid));
    }
    assert forall|k: (Seq<char>, Seq<char>)| #[trigger] t.contains_key(k) implies t[k].dom().finite() by {
        if k != id {
            assert(s.contains_key(k));
        }
    }
}

/// Two specifier entries for the same `(service, user)` pair designate the
/// same credential: once a write through one goes through, a read through
/// the other finds exactly one credential, holding what was written.
pub proof fn specifiers_share_credentials(
    s: StoreModel,
    id: (Seq<char>, Seq<char>),
    secret: Seq<u8>,
    fresh: Seq<char>,
)
    requires
        finite_model(s),
        set_succeeds(s, id, None),
    ensures
        resolves(after_set(s, id, None, secret, fresh), id, None),
        bucket_of(after_set(s, id, None, secret, fresh), id)[target(after_set(s, id, None, secret, fresh), id, None)].secret
            == secret,
{
    lemma_write_then_read(s, id, None, secret, fresh);
}

/// Deleting through a specifier whose pair has one credential goes
/// through; deleting again designates nothing, so the only miss it can
/// report is `NoEntry`.
pub proof fn delete_twice_reports_no_entry(s: StoreModel, id: (Seq<char>, Seq<char>))
    requires
        finite_model(s),
        bucket_of(s, id).len() == 1,
    ensures
        resolves(s, id, None),
        !resolves(after_delete(s, id, None), id, None),
        forall|e: Miss| miss_fits(designated(after_delete(s, id, None), id, None), e) ==> e is NoEntry,
{
    assert(designated(s, id, None) == bucket_of(s, id).dom());
    lemma_resolved(s, id, None);
    let u = target(s, id, None);
    let t = after_delete(s, id, None);
    assert(bucket_of(t, id).dom() =~= set![u].remove(u));
    assert(designated(t, id, None) =~= Set::<Seq<char>>::empty());
}

/// Adding a credential under a fresh uuid grows the pair's bucket by one.
pub proof fn add_grows_bucket(s: StoreModel, id: (Seq<char>, Seq<char>), fresh: Seq<char>, r: RecordView)
    requires
        finite_model(s),
        !bucket_of(s, id).contains_key(fresh),
    ensures
        bucket_of(after_add(s, id, fresh, r), id).len() == bucket_of(s, id).len() + 1,
        bucket_of(after_add(s, id, fresh, r), id).dom() == bucket_of(s, id).dom().insert(fresh),
{
    if s.contains_key(id) {
        assert(s[id].dom().finite());
    } else {
        assert(bucket_of(s, id).dom() =~= Set::<Seq<char>>::empty());
    }
    assert(bucket_of(after_add(s, id, fresh, r), id).dom() =~= bucket_of(s, id).dom().insert(fresh));
}

/// With two or more credentials for a pair, a specifier can neither read
/// nor write: the only miss it can report is `Ambiguous`, listing every
/// uuid of the bucket once. Each credential stays reachable through its
/// own wrapper: a write through it keeps every credential of the bucket,
/// and a delete through it removes that credential alone.
pub proof fn ambiguity_and_wrappers(s: StoreModel, id: (Seq<char>, Seq<char>), u: Seq<char>, secret: Seq<u8>, fresh: Seq<char>)
    requires
        finite_model(s),
        bucket_of(s, id).len() >= 2,
        bucket_of(s, id).contains_key(u),
    ensures
        !resolves(s, id, None),
        !set_succeeds(s, id, None),
        forall|e: Miss| #[trigger] miss_fits(designated(s, id, None), e) ==> e is Ambiguous
            && e->Ambiguous_0@.len() == bucket_of(s, id).len(),
        resolves(s, id, Some(u)),
        bucket_of(after_set(s, id, Some(u), secret, fresh), id).dom() == bucket_of(s, id).dom(),
        bucket_of(after_set(s, id, Some(u), secret, fresh), id)[u].secret == secret,
        bucket_of(after_delete(s, id, Some(u)), id).dom() == bucket_of(s, id).dom().remove(u),
{
    assert(designated(s, id, None) == bucket_of(s, id).dom());
    assert(designated(s, id, Some(u)) =~= set![u]);
    lemma_resolved(s, id, Some(u));
    let b = bucket_of(s, id);
    assert(bucket_of(after_set(s, id, Some(u), secret, fresh), id).dom() =~= b.dom());
    assert(bucket_of(after_delete(s, id, Some(u)), id).dom() =~= b.dom().remove(u));
}

/// A wrapper never re-targets: once its credential is gone from the
/// bucket, it designates nothing, also after a specifier creates a new
/// credential for the pair under another uuid.
pub proof fn wrapper_stays_pinned(
    s: StoreModel,
    id: (Seq<char>, Seq<char>),
    u: Seq<char>,
    secret: Seq<u8>,
    fresh: Seq<char>,
)
    requires
        finite_model(s),
        resolves(s, id, Some(u)),
        fresh != u,
    ensures
        designated(after_delete(s, id, Some(u)), id, Some(u)).len() == 0,
        designated(after_set(after_delete(s, id, Some(u)), id, None, secret, fresh), id, Some(u)).len() == 0,
{
    lemma_resolved(s, id, Some(u));
    let t = after_delete(s, id, Some(u));
    assert(!bucket_of(t, id).contains_key(u));
    assert(designated(t, id, Some(u)) =~= Set::<Seq<char>>::empty());
    let w = after_set(t, id, None, secret, fresh);
    assert(!bucket_of(w, id).contains_key(u));
    assert(designated(w, id, Some(u)) =~= Set::<Seq<char>>::empty());
}

/// Secrets round-trip: after a write that goes through, a read through the
/// same entry gives back exactly the bytes written.
pub proof fn secret_round_trip(
    s: StoreModel,
    id: (Seq<char>, Seq<char>),
    uuid: Option<Seq<char>>,
    secret: Seq<u8>,
    fresh: Seq<char>,
)
    requires
        finite_model(s),
        set_succeeds(s, id, uuid),
    ensures
        resolves(after_set(s, id, uuid, secret, fresh), id, uuid),
        bucket_of(after_set(s, id, uuid, secret, fresh), id)[target(after_set(s, id, uuid, secret, fresh), id, uuid)].secret
            == secret,
{
    lemma_write_then_read(s, id, uuid, secret, fresh);
}

/// Passwords round-trip: a password's UTF-8 encoding, once written and read
/// back, is valid UTF-8 and decodes to the password.
pub proof fn password_round_trip(
    s: StoreModel,
    id: (Seq<char>, Seq<char>),
    uuid: Option<Seq<char>>,
    password: Seq<char>,
    fresh: Seq<char>,
)
    requires
        finite_model(s),
        set_succeeds(s, id, uuid),
    ensures
        ({
            let t = after_set(s, id, uuid, encode_utf8(password), fresh);
            let read = bucket_of(t, id)[target(t, id, uuid)].secret;
            resolves(t, id, uuid) && valid_utf8(read) && decode_utf8(read) == password
        }),
{
    lemma_write_then_read(s, id, uuid, encode_utf8(password), fresh);
    encode_utf8_valid_utf8(password);
    encode_utf8_decode_utf8(password);
}

/// No attribute update changes a credential's `creation_date`, nor its secret.
pub proof fn creation_date_is_immutable(r: RecordView, updates: Map<Seq<char>, Seq<char>>)
    ensures
        with_updates(r, updates).creation_date == r.creation_date,
        with_updates(r, updates).secret == r.secret,
{
}

proof fn lemma_records_map(v: Seq<(String, CredValue)>)
    requires
        forall|i: int, j: int| 0 <= i < j < v.len() ==> #[trigger] v[i].0@ != #[trigger] v[j].0@,
    ensures
        forall|k: Seq<char>| #[trigger] records_map(v).contains_key(k) <==> exists|i: int| 0 <= i < v.len() && v[i].0@ == k,
        forall|i: int| 0 <= i < v.len() ==> records_map(v)[(#[trigger] v[i]).0@] == v[i].1@,
    decreases v.len(),
{
    if v.len() > 0 {
        let w = v.drop_last();
        lemma_records_map(w);
        assert(records_map(v) == records_map(w).insert(v.last().0@, v.last().1@));
        assert forall|k: Seq<char>| #[trigger] records_map(v).contains_key(k) <==> exists|i: int| 0 <= i < v.len() && v[i].0@ == k by {
            if records_map(v).contains_key(k) {
                if k != v.last().0@ {
                    assert(records_map(w).contains_key(k));
                    let i = choose|i: int| 0 <= i < w.len() && w[i].0@ == k;
                    assert(w[i] == v[i]);
                    assert(v[i].0@ == k);
                } else {
                    assert(v[v.len() - 1].0@ == k);
                }
            }
            if exists|i: int| 0 <= i < v.len() && v[i].0@ == k {
                let i = choose|i: int| 0 <= i < v.len() && v[i].0@ == k;
                if i < w.len() {
                    assert(w[i] == v[i]);
                    assert(w[i].0@ == k);
                }
            }
        }
        assert forall|i: int| 0 <= i < v.len() implies records_map(v)[(#[trigger] v[i]).0@] == v[i].1@ by {
            if i < w.len() {
                assert(w[i] == v[i]);
                assert(v[i].0@ != v.last().0@);
            }
        }
    }
}

proof fn lemma_restored(v: Seq<(CredId, Vec<(String, CredValue)>)>)
    requires
        forall|i: int, j: int| 0 <= i < j < v.len() ==> #[trigger] v[i].0@ != #[trigger] v[j].0@,
    ensures
        forall|id: (Seq<char>, Seq<char>)| #[trigger] restored(v).contains_key(id) <==> exists|i: int|
            0 <= i < v.len() && v[i].0@ == id,
        forall|i: int| 0 <= i < v.len() ==> restored(v)[(#[trigger] v[i]).0@] == records_map(v[i].1@),
    decreases v.len(),
{
    if v.len() > 0 {
        let w = v.drop_last();
        lemma_restored(w);
        let last = v.last().0@;
        assert(!restored(w).contains_key(last)) by {
            if restored(w).contains_key(last) {
                let i = choose|i: int| 0 <= i < w.len() && w[i].0@ == last;
                assert(w[i] == v[i]);
                assert(v[i].0@ == last);
            }
        }
        assert(bucket_of(restored(w), last).union_prefer_right(records_map(v.last().1@)) =~= records_map(v.last().1@));
        assert forall|id: (Seq<char>, Seq<char>)| #[trigger] restored(v).contains_key(id) <==> exists|i: int|
            0 <= i < v.len() && v[i].0@ == id by {
            if restored(v).contains_key(id) {
                if id != last {
                    assert(restored(w).contains_key(id));
                    let i = choose|i: int| 0 <= i < w.len() && w[i].0@ == id;
                    assert(w[i] == v[i]);
                    assert(v[i].0@ == id);
                } else {
                    assert(v[v.len() - 1].0@ == id);
                }
            }
            if exists|i: int| 0 <= i < v.len() && v[i].0@ == id {
                let i = choose|i: int| 0 <= i < v.len() && v[i].0@ == id;
                if i < w.len() {
                    assert(w[i] == v[i]);
                    assert(w[i].0@ == id);
                }
            }
        }
        assert forall|i: int| 0 <= i < v.len() implies restored(v)[(#[trigger] v[i]).0@] == records_map(v[i].1@) by {
            if i < w.len() {
                assert(w[i] == v[i]);
                assert(v[i].0@ != last);
            }
        }
    }
}

/// A snapshot restores what it was taken of: rebuilding a store from a
/// snapshot of it gives every pair back with exactly its credentials.
pub proof fn snapshot_restores(s: StoreModel, snapshot: Seq<(CredId, Vec<(String, CredValue)>)>)
    requires
        finite_model(s),
        snapshot_of(s, snapshot),
    ensures
        restored(snapshot) == s,
{
    lemma_restored(snapshot);
    assert forall|id: (Seq<char>, Seq<char>)| #[trigger] s.contains_key(id) implies restored(snapshot)[id] == s[id] by {
        let i = choose|i: int| 0 <= i < snapshot.len() && #[trigger] snapshot[i].0@ == id;
        let recs = snapshot[i].1@;
        assert(lists_records(s[id], recs));
        lemma_records_map(recs);
        assert(records_map(recs) =~= s[id]) by {
            assert forall|u: Seq<char>| #[trigger] records_map(recs).contains_key(u) <==> s[id].contains_key(u) by {
                if s[id].contains_key(u) {
                    let j = choose|j: int| 0 <= j < recs.len() && #[trigger] recs[j].0@ == u;
                }
                if records_map(recs).contains_key(u) {
                    let j = choose|j: int| 0 <= j < recs.len() && recs[j].0@ == u;
                    assert(s[id].contains_key(recs[j].0@));
                }
            }
            assert forall|u: Seq<char>| #[trigger] records_map(recs).contains_key(u) implies records_map(recs)[u] == s[id][u] by {
                let j = choose|j: int| 0 <= j < recs.len() && recs[j].0@ == u;
                assert(records_map(recs)[recs[j].0@] == recs[j].1@);
            }
        }
    }
    assert forall|id: (Seq<char>, Seq<char>)| #[trigger] restored(snapshot).contains_key(id) <==> s.contains_key(id) by {
        if restored(snapshot).contains_key(id) {
            let i = choose|i: int| 0 <= i < snapshot.len() && snapshot[i].0@ == id;
            assert(s.contains_key(snapshot[i].0@));
        }
        if s.contains_key(id) {
            let i = choose|i: int| 0 <= i < snapshot.len() && #[trigger] snapshot[i].0@ == id;
        }
    }
    assert(restored(snapshot) =~= s);
}

} // verus!
