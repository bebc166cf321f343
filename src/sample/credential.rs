//! Credentials of the sample store: the `(service, user)` pair that names a
//! bucket, and the operations on one credential's attributes.
use vstd::prelude::*;

use std::sync::Arc;

use crate::attributes::{externalize_attributes, map_of_pairs, pairs_view, same_text, AttrMap};
use crate::error::{decode_password, Error};
use crate::{Credential, Entry};
use super::cred_map::{
    bucket_of, designated, finite_model, miss_fits, resolves, target, uuid_view, Miss, Refusal, StoreModel,
};
use super::store::{change_fits, locate_fits, read_fits, update_fits, write_fits, CredValue, RecordView, Store};
use vstd::utf8::{decode_utf8, valid_utf8};

verus! {

/// Credentials are specified by a pair of service name and user name.
pub struct CredId {
    pub service: String,
    pub user: String,
}

impl View for CredId {
    type V = (Seq<char>, Seq<char>);

    open spec fn view(&self) -> (Seq<char>, Seq<char>) {
        (self.service@, self.user@)
    }
}

impl Clone for CredId {
    fn clone(&self) -> (r: CredId)
        ensures
            r@ == self@,
    {
        CredId { service: self.service.clone(), user: self.user.clone() }
    }
}

impl CredId {
    /// The pair as a map key.
    pub fn key(&self) -> (r: (String, String))
        ensures
            (r.0@, r.1@) == self@,
    {
        (self.service.clone(), self.user.clone())
    }
}

/// The attributes a record shows: its `creation_date` and `comment`, where set.
pub open spec fn attrs_of(r: RecordView) -> Map<Seq<char>, Seq<char>> {
    let dated = match r.creation_date {
        Some(d) => Map::empty().insert("creation_date"@, d),
        None => Map::empty(),
    };
    match r.comment {
        Some(c) => dated.insert("comment"@, c),
        None => dated,
    }
}

/// A record after an attribute update: `comment`, if given, is replaced;
/// every other key is ignored.
pub open spec fn with_updates(r: RecordView, updates: Map<Seq<char>, Seq<char>>) -> RecordView {
    if updates.contains_key("comment"@) {
        RecordView { comment: Some(updates["comment"@]), ..r }
    } else {
        r
    }
}

/// The attributes of a credential.
pub fn get_attrs(cred: &CredValue) -> (r: AttrMap)
    ensures
        r@ == attrs_of(cred@),
{
    let mut attrs = AttrMap::new();
    match &cred.creation_date {
        Some(date) => attrs.insert("creation_date".to_owned(), date.clone()),
        None => {},
    }
    match &cred.comment {
        Some(comment) => attrs.insert("comment".to_owned(), comment.clone()),
        None => {},
    }
    attrs
}

/// Update the attributes of a credential: only `comment` can change, and
/// other keys are ignored.
pub fn update_attrs(cred: &mut CredValue, attrs: &[(&str, &str)])
    ensures
        final(cred)@ == with_updates(old(cred)@, map_of_pairs(pairs_view(attrs@))),
{
    let updates = externalize_attributes(attrs);
    match updates.get("comment") {
        Some(comment) => {
            cred.comment = Some(comment.clone());
        },
        None => {},
    }
}

/// Whether any of the pairs has the key `key`.
pub open spec fn has_key(attrs: Seq<(Seq<char>, Seq<char>)>, key: Seq<char>) -> bool {
    exists|i: int| 0 <= i < attrs.len() && (#[trigger] attrs[i]).0 == key
}

/// Whether the pairs name `creation_date`, which cannot be updated.
pub fn names_creation_date(attrs: &[(&str, &str)]) -> (r: bool)
    ensures
        r == has_key(pairs_view(attrs@), "creation_date"@),
{
    let mut i: usize = 0;
    while i < attrs.len()
        invariant
            i <= attrs@.len(),
            forall|j: int| 0 <= j < i ==> (#[trigger] pairs_view(attrs@)[j]).0 != "creation_date"@,
        decreases attrs@.len() - i,
    {
        if same_text(attrs[i].0, "creation_date") {
            assert(pairs_view(attrs@)[i as int].0 == "creation_date"@);
            return true;
        }
        i = i + 1;
    }
    false
}

/// What reading the secret through the entry `(id, uuid)` may give, given
/// the store's contents when it ran.
pub open spec fn secret_fits(
    s: StoreModel,
    id: (Seq<char>, Seq<char>),
    uuid: Option<Seq<char>>,
    r: Result<Vec<u8>, Error>,
) -> bool {
    &&& r is Ok <==> resolves(s, id, uuid)
    &&& r is Ok ==> r->Ok_0@ == bucket_of(s, id)[target(s, id, uuid)].secret
}

/// What reading the password through the entry may give: the designated
/// secret's UTF-8 text, or `BadEncoding` with its bytes.
pub open spec fn password_fits(
    s: StoreModel,
    id: (Seq<char>, Seq<char>),
    uuid: Option<Seq<char>>,
    r: Result<String, Error>,
) -> bool {
    let secret = bucket_of(s, id)[target(s, id, uuid)].secret;
    &&& !resolves(s, id, uuid) ==> r is Err
    &&& resolves(s, id, uuid) && valid_utf8(secret) ==> r is Ok && r->Ok_0@ == decode_utf8(secret)
    &&& resolves(s, id, uuid) && !valid_utf8(secret) ==> r is Err && r->Err_0 is BadEncoding
        && r->Err_0->BadEncoding_0@ == secret
}

/// What reading the attributes through the entry may give.
pub open spec fn attributes_fit(
    s: StoreModel,
    id: (Seq<char>, Seq<char>),
    uuid: Option<Seq<char>>,
    r: Result<AttrMap, Error>,
) -> bool {
    &&& r is Ok <==> resolves(s, id, uuid)
    &&& r is Ok ==> r->Ok_0@ == attrs_of(bucket_of(s, id)[target(s, id, uuid)])
}

/// What asking the entry for a wrapper may give: for a specifier, a wrapper
/// of the credential it designates.
pub open spec fn wrapper_fits(
    s: StoreModel,
    id: (Seq<char>, Seq<char>),
    uuid: Option<Seq<char>>,
    r: Result<Option<CredKey>, Error>,
) -> bool {
    &&& r is Ok <==> resolves(s, id, uuid)
    &&& r is Ok && uuid is None ==> r->Ok_0 is Some && uuid_view(r->Ok_0->0.uuid) == Some(target(s, id, uuid))
}

/// A handle on the credentials of a sample store: a specifier when `uuid` is
/// `None`, else a wrapper of the credential with that uuid.
pub struct CredKey {
    pub store: Arc<Store>,
    pub id: CredId,
    pub uuid: Option<String>,
}

impl CredKey {
    /// A miss this handle can meet: several credentials only for a specifier,
    /// listed without repeats.
    pub open spec fn miss_ok(&self, m: Miss) -> bool {
        match m {
            Miss::NoEntry => true,
            Miss::Ambiguous(v) => self.uuid is None && v@.len() > 1 && forall|i: int, j: int|
                0 <= i < j < v@.len() ==> #[trigger] v@[i]@ != #[trigger] v@[j]@,
        }
    }

    /// An error this handle can report when it designates no single
    /// credential: `NoEntry`, or, for a specifier, `Ambiguous` with one
    /// wrapper per credential of its bucket.
    pub open spec fn miss_error(&self, e: Error) -> bool {
        match e {
            Error::NoEntry => true,
            Error::Ambiguous(v) => {
                &&& self.uuid is None
                &&& v@.len() > 1
                &&& forall|i: int| 0 <= i < v@.len() ==> (#[trigger] v@[i].handle()).id@ == self.id@
                    && v@[i].handle().uuid is Some && v@[i].is_sample() && v@[i].handle().store == self.store
                &&& forall|i: int, j: int| 0 <= i < j < v@.len() ==> (#[trigger] v@[i].handle()).uuid
                    != (#[trigger] v@[j].handle()).uuid
            },
            _ => false,
        }
    }

    proof fn lemma_miss(&self, s: StoreModel, m: Miss)
        requires
            miss_fits(designated(s, self.id@, uuid_view(self.uuid)), m),
        ensures
            self.miss_ok(m),
    {
        if m is Ambiguous {
            if self.uuid is Some {
                let u = self.uuid->0;
                let d = designated(s, self.id@, uuid_view(self.uuid));
                if d.len() > 0 {
                    assert(d =~= set![u@]);
                } else {
                    assert(d =~= Set::<Seq<char>>::empty());
                }
            }
        }
    }

    /// The error for a miss: `NoEntry`, or `Ambiguous` with a wrapper for
    /// each credential listed.
    fn miss_to_error(&self, m: Miss) -> (r: Error)
        requires
            self.miss_ok(m),
        ensures
            self.miss_error(r),
            m is NoEntry ==> r is NoEntry,
            m is Ambiguous ==> r is Ambiguous && r->Ambiguous_0@.len() == m->Ambiguous_0@.len()
                && forall|i: int| 0 <= i < r->Ambiguous_0@.len() ==> #[trigger] r->Ambiguous_0@[i].handle().uuid
                == Some(m->Ambiguous_0@[i]),
    {
        match m {
            Miss::NoEntry => Error::NoEntry,
            Miss::Ambiguous(uuids) => {
                let mut entries: Vec<Entry> = Vec::new();
                let mut i: usize = 0;
                while i < uuids.len()
                    invariant
                        i <= uuids@.len(),
                        entries@.len() == i,
                        forall|j: int| 0 <= j < i ==> (#[trigger] entries@[j].handle()).id@ == self.id@
                            && entries@[j].handle().uuid == Some(uuids@[j]) && entries@[j].is_sample()
                            && entries@[j].handle().store == self.store,
                    decreases uuids@.len() - i,
                {
                    let key = CredKey {
                        store: self.store.clone(),
                        id: self.id.clone(),
                        uuid: Some(uuids[i].clone()),
                    };
                    entries.push(Entry::new_with_credential(Credential::Sample(key)));
                    i = i + 1;
                }
                assert forall|a: int, b: int| 0 <= a < b < entries@.len() implies (#[trigger] entries@[a].handle()).uuid
                    != (#[trigger] entries@[b].handle()).uuid by {
                    assert(uuids@[a]@ != uuids@[b]@);
                }
                Error::Ambiguous(entries)
            },
        }
    }

    /// Set the secret of the designated credential; a specifier whose bucket
    /// is empty creates it.
    pub fn set_secret(&self, secret: &[u8]) -> (r: Result<(), Error>)
        ensures
            r is Err ==> self.miss_error(r->Err_0),
            self.uuid is None ==> !(r is Err && r->Err_0 is NoEntry),
    {
        match self.store.set_secret(&self.id, &self.uuid, secret) {
            Ok(()) => Ok(()),
            Err(m) => {
                proof {
                    let s = choose|s: StoreModel| finite_model(s) && #[trigger] write_fits(s, self.id@, uuid_view(self.uuid), Err(m));
                    self.lemma_miss(s, m);
                }
                Err(self.miss_to_error(m))
            },
        }
    }

    /// Set the password: the secret is the password's UTF-8 encoding.
    pub fn set_password(&self, password: &str) -> (r: Result<(), Error>)
        ensures
            r is Err ==> self.miss_error(r->Err_0),
            self.uuid is None ==> !(r is Err && r->Err_0 is NoEntry),
    {
        self.set_secret(password.as_bytes())
    }

    /// The secret of the designated credential.
    pub fn get_secret(&self) -> (r: Result<Vec<u8>, Error>)
        ensures
            r is Err ==> self.miss_error(r->Err_0),
            exists|s: StoreModel| finite_model(s) && #[trigger] secret_fits(s, self.id@, uuid_view(self.uuid), r),
    {
        let read = self.store.read(&self.id, &self.uuid);
        let ghost s = choose|s: StoreModel| finite_model(s) && #[trigger] read_fits(s, self.id@, uuid_view(self.uuid), read);
        match read {
            Ok(v) => {
                assert(secret_fits(s, self.id@, uuid_view(self.uuid), Ok::<Vec<u8>, Error>(v.secret)));
                Ok(v.secret)
            },
            Err(m) => {
                proof {
                    self.lemma_miss(s, m);
                }
                let e = self.miss_to_error(m);
                assert(secret_fits(s, self.id@, uuid_view(self.uuid), Err::<Vec<u8>, Error>(e)));
                Err(e)
            },
        }
    }

    /// The password of the designated credential: its secret as UTF-8 text.
    pub fn get_password(&self) -> (r: Result<String, Error>)
        ensures
            r is Err ==> self.miss_error(r->Err_0) || r->Err_0 is BadEncoding,
            exists|s: StoreModel| finite_model(s) && #[trigger] password_fits(s, self.id@, uuid_view(self.uuid), r),
    {
        let secret = self.get_secret();
        let ghost s = choose|s: StoreModel| finite_model(s) && #[trigger] secret_fits(s, self.id@, uuid_view(self.uuid), secret);
        let r = match secret {
            Ok(secret) => decode_password(secret),
            Err(e) => Err(e),
        };
        assert(password_fits(s, self.id@, uuid_view(self.uuid), r));
        r
    }

    /// The attributes of the designated credential.
    pub fn get_attributes(&self) -> (r: Result<AttrMap, Error>)
        ensures
            r is Err ==> self.miss_error(r->Err_0),
            exists|s: StoreModel| finite_model(s) && #[trigger] attributes_fit(s, self.id@, uuid_view(self.uuid), r),
    {
        let read = self.store.read(&self.id, &self.uuid);
        let ghost s = choose|s: StoreModel| finite_model(s) && #[trigger] read_fits(s, self.id@, uuid_view(self.uuid), read);
        match read {
            Ok(v) => {
                let attrs = get_attrs(&v);
                assert(attributes_fit(s, self.id@, uuid_view(self.uuid), Ok::<AttrMap, Error>(attrs)));
                Ok(attrs)
            },
            Err(m) => {
                proof {
                    self.lemma_miss(s, m);
                }
                let e = self.miss_to_error(m);
                assert(attributes_fit(s, self.id@, uuid_view(self.uuid), Err::<AttrMap, Error>(e)));
                Err(e)
            },
        }
    }

    /// Update the attributes of the designated credential. Naming
    /// `creation_date` fails with `Invalid` and changes nothing; `comment`
    /// is replaced; other keys are ignored.
    pub fn update_attributes(&self, attrs: &[(&str, &str)]) -> (r: Result<(), Error>)
        ensures
            has_key(pairs_view(attrs@), "creation_date"@) ==> r is Err && r->Err_0 is Invalid
                && r->Err_0->Invalid_0@ == "creation_date"@ && r->Err_0->Invalid_1@ == "cannot be updated"@,
            !has_key(pairs_view(attrs@), "creation_date"@) && r is Err ==> self.miss_error(r->Err_0),
    {
        match self.store.update(&self.id, &self.uuid, attrs) {
            Ok(()) => Ok(()),
            Err(Refusal::Immutable) => Err(Error::Invalid("creation_date".to_owned(), "cannot be updated".to_owned())),
            Err(Refusal::Missed(m)) => {
                proof {
                    let s = choose|s: StoreModel| finite_model(s) && #[trigger] update_fits(s, self.id@, uuid_view(self.uuid), attrs@, Err(Refusal::Missed(m)));
                    self.lemma_miss(s, m);
                }
                Err(self.miss_to_error(m))
            },
        }
    }

    /// Delete the designated credential.
    pub fn delete_credential(&self) -> (r: Result<(), Error>)
        ensures
            r is Err ==> self.miss_error(r->Err_0),
    {
        match self.store.delete(&self.id, &self.uuid) {
            Ok(()) => Ok(()),
            Err(m) => {
                proof {
                    let s = choose|s: StoreModel| finite_model(s) && #[trigger] change_fits(s, self.id@, uuid_view(self.uuid), Err(m));
                    self.lemma_miss(s, m);
                }
                Err(self.miss_to_error(m))
            },
        }
    }

    /// A wrapper of the designated credential: a new one for a specifier,
    /// `None` for a wrapper, which already is one.
    pub fn get_credential(&self) -> (r: Result<Option<CredKey>, Error>)
        ensures
            self.uuid is Some && r is Ok ==> r->Ok_0 is None,
            self.uuid is None && r is Ok ==> r->Ok_0 is Some && r->Ok_0->0.store == self.store
                && r->Ok_0->0.id@ == self.id@ && r->Ok_0->0.uuid is Some,
            exists|s: StoreModel| finite_model(s) && #[trigger] wrapper_fits(s, self.id@, uuid_view(self.uuid), r),
            r is Err ==> self.miss_error(r->Err_0),
    {
        let found = self.store.locate(&self.id, &self.uuid);
        let ghost s = choose|s: StoreModel| finite_model(s) && #[trigger] locate_fits(s, self.id@, uuid_view(self.uuid), found);
        match found {
            Ok(u) => {
                if self.uuid.is_some() {
                    assert(wrapper_fits(s, self.id@, uuid_view(self.uuid), Ok::<Option<CredKey>, Error>(None)));
                    Ok(None)
                } else {
                    let key = CredKey { store: self.store.clone(), id: self.id.clone(), uuid: Some(u) };
                    assert(wrapper_fits(s, self.id@, uuid_view(self.uuid), Ok::<Option<CredKey>, Error>(Some(key))));
                    Ok(Some(key))
                }
            },
            Err(m) => {
                proof {
                    self.lemma_miss(s, m);
                }
                let e = self.miss_to_error(m);
                assert(wrapper_fits(s, self.id@, uuid_view(self.uuid), Err::<Option<CredKey>, Error>(e)));
                Err(e)
            },
        }
    }

    /// A copy of this handle: the same store, pair and uuid.
    pub fn duplicate(&self) -> (r: CredKey)
        ensures
            r.store == self.store,
            r.id@ == self.id@,
            uuid_view(r.uuid) == uuid_view(self.uuid),
    {
        let uuid = match &self.uuid {
            Some(u) => Some(u.clone()),
            None => None,
        };
        CredKey { store: self.store.clone(), id: self.id.clone(), uuid }
    }

    /// The `(service, user)` pair of this handle.
    pub fn get_specifiers(&self) -> (r: Option<(String, String)>)
        ensures
            r is Some && super::dash::pair_view(r->0) == self.id@,
    {
        Some(self.id.key())
    }
}

} // verus!
