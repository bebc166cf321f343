//! The sample store and the values it keeps for each credential.
use std::sync::Arc;

use vstd::prelude::*;
use vstd::rwlock::{RwLock, RwLockPredicate};
use vstd::slice::slice_to_vec;
use vstd::string::StringExecFns;

use super::cred_map::{
    bucket_of, designated, finite_model, found, lemma_filter_view, lists_found, miss_fits, resolves,
    selects, set_succeeds, hit_view, snapshot_of, target, uuid_view, CredMap, Filter, Miss, Refusal, StoreModel,
};
use super::pattern::{compile, regex_accepts, Pattern};
use super::credential::{has_key, CredId, CredKey};
use crate::api::CredentialPersistence;
use crate::attributes::{
    externalize_attributes, map_of_pairs, pairs_view, parse_attributes, parse_outcome, strs_view,
    AttrMap,
};
use crate::error::Error;
use crate::{Credential, Entry};

verus! {

/// What a credential holds, as values.
pub ghost struct RecordView {
    pub secret: Seq<u8>,
    pub comment: Option<Seq<char>>,
    pub creation_date: Option<Seq<char>>,
}

/// The text of an optional string.
pub open spec fn opt_text(o: Option<String>) -> Option<Seq<char>> {
    match o {
        Some(s) => Some(s@),
        None => None,
    }
}

/// The stored data of a credential.
pub struct CredValue {
    pub secret: Vec<u8>,
    pub comment: Option<String>,
    pub creation_date: Option<String>,
}

impl View for CredValue {
    type V = RecordView;

    open spec fn view(&self) -> RecordView {
        RecordView {
            secret: self.secret@,
            comment: opt_text(self.comment),
            creation_date: opt_text(self.creation_date),
        }
    }
}

impl Clone for CredValue {
    fn clone(&self) -> (r: CredValue)
        ensures
            r@ == self@,
    {
        let comment = match &self.comment {
            Some(c) => Some(c.clone()),
            None => None,
        };
        let creation_date = match &self.creation_date {
            Some(d) => Some(d.clone()),
            None => None,
        };
        CredValue { secret: self.secret.clone(), comment, creation_date }
    }
}

impl CredValue {
    /// A credential holding `secret`, with no attributes.
    pub fn new(secret: &[u8]) -> (r: CredValue)
        ensures
            r@ == (RecordView { secret: secret@, comment: None, creation_date: None }),
    {
        CredValue { secret: slice_to_vec(secret), comment: None, creation_date: None }
    }

    /// A credential made to create ambiguity: an empty secret, the given
    /// comment, and the local time of its creation.
    pub fn new_ambiguous(comment: &str) -> (r: CredValue)
        ensures
            r@.secret == Seq::<u8>::empty(),
            r@.comment == Some(comment@),
            r@.creation_date is Some,
    {
        CredValue {
            secret: Vec::new(),
            comment: Some(comment.to_owned()),
            creation_date: Some(local_time_now()),
        }
    }
}

/// Relies on `chrono::Local::now` and `DateTime::to_rfc2822`: the current
/// local time as text. What it returns depends on the clock. The format
/// refuses years outside 0 to 9999, which the clock does not reach.
#[verifier::external_body]
fn local_time_now() -> String {
    chrono::Local::now().to_rfc2822()
}

/// Relies on `uuid::Uuid::new_v4` and its `to_string`: a random uuid in
/// its hyphenated form, 36 characters. Which uuid depends on chance.
#[verifier::external_body]
fn new_uuid() -> (r: String)
    ensures
        r@.len() == 36,
{
    uuid::Uuid::new_v4().to_string()
}

/// The lock's invariant: the credentials behind it are well formed.
pub struct WellFormed;

impl RwLockPredicate<CredMap> for WellFormed {
    open spec fn inv(self, m: CredMap) -> bool {
        m.wf()
    }
}

/// What a read may give, given the store's contents when it ran.
pub open spec fn read_fits(
    s: StoreModel,
    id: (Seq<char>, Seq<char>),
    uuid: Option<Seq<char>>,
    r: Result<CredValue, Miss>,
) -> bool {
    &&& r is Ok <==> resolves(s, id, uuid)
    &&& r is Ok ==> r->Ok_0@ == bucket_of(s, id)[target(s, id, uuid)]
    &&& r is Err ==> miss_fits(designated(s, id, uuid), r->Err_0)
}

/// What locating the designated credential may give.
pub open spec fn locate_fits(
    s: StoreModel,
    id: (Seq<char>, Seq<char>),
    uuid: Option<Seq<char>>,
    r: Result<String, Miss>,
) -> bool {
    &&& r is Ok <==> resolves(s, id, uuid)
    &&& r is Ok ==> r->Ok_0@ == target(s, id, uuid)
    &&& r is Err ==> miss_fits(designated(s, id, uuid), r->Err_0)
}

/// What a write may give.
pub open spec fn write_fits(
    s: StoreModel,
    id: (Seq<char>, Seq<char>),
    uuid: Option<Seq<char>>,
    r: Result<(), Miss>,
) -> bool {
    &&& r is Ok <==> set_succeeds(s, id, uuid)
    &&& r is Err ==> miss_fits(designated(s, id, uuid), r->Err_0)
}

/// What a delete may give.
pub open spec fn change_fits(
    s: StoreModel,
    id: (Seq<char>, Seq<char>),
    uuid: Option<Seq<char>>,
    r: Result<(), Miss>,
) -> bool {
    &&& r is Ok <==> resolves(s, id, uuid)
    &&& r is Err ==> miss_fits(designated(s, id, uuid), r->Err_0)
}

/// What an attribute update may give.
pub open spec fn update_fits(
    s: StoreModel,
    id: (Seq<char>, Seq<char>),
    uuid: Option<Seq<char>>,
    attrs: Seq<(&str, &str)>,
    r: Result<(), Refusal>,
) -> bool {
    &&& has_key(pairs_view(attrs), "creation_date"@) ==> r is Err && r->Err_0 is Immutable
    &&& !has_key(pairs_view(attrs), "creation_date"@) ==> (r is Ok <==> resolves(s, id, uuid))
    &&& r is Err && r->Err_0 is Immutable ==> has_key(pairs_view(attrs), "creation_date"@)
    &&& r is Err && r->Err_0 is Missed ==> miss_fits(designated(s, id, uuid), r->Err_0->Missed_0)
}

/// A credential store: credentials in memory behind a lock, and the path of
/// the file they are saved to, if any.
pub struct Store {
    pub id: String,
    creds: RwLock<CredMap, WellFormed>,
    pub backing: Option<String>,
}

impl Store {
    /// The backing file, if any.
    pub closed spec fn backed(&self) -> Option<String> {
        self.backing
    }

    /// The id of the instance.
    pub closed spec fn name(&self) -> String {
        self.id
    }

    /// A new, empty store with no backing file.
    pub fn new() -> (r: Result<Arc<Store>, Error>)
        ensures
            r is Ok,
            r->Ok_0.backed() is None,
    {
        Ok(Self::new_internal(CredMap::new(), None))
    }

    /// A store holding the given credentials, saved to `backing` if given.
    pub fn new_internal(creds: CredMap, backing: Option<String>) -> (r: Arc<Store>)
        requires
            creds.wf(),
        ensures
            r.backed() == backing,
    {
        let id = "Sample store, instantiated at ".to_owned().concat(local_time_now().as_str());
        Arc::new(Store { id, creds: RwLock::new(creds, Ghost(WellFormed)), backing })
    }

    /// The vendor of this kind of store.
    pub fn vendor(&self) -> (r: String)
        ensures
            r@ == "Sample store, https://crates.io/crates/keyring-core"@,
    {
        "Sample store, https://crates.io/crates/keyring-core".to_owned()
    }

    /// The id of this store instance.
    pub fn id(&self) -> (r: String)
        ensures
            r@ == self.name()@,
    {
        self.id.clone()
    }

    /// How long credentials last: until deleted where there is a backing
    /// file, else only as long as the process.
    pub fn persistence(&self) -> (r: CredentialPersistence)
        ensures
            self.backed() is None ==> r is ProcessOnly,
            self.backed() is Some ==> r is UntilDelete,
    {
        match &self.backing {
            None => CredentialPersistence::ProcessOnly,
            Some(_) => CredentialPersistence::UntilDelete,
        }
    }

    /// A copy of the credential that `(id, uuid)` designates.
    pub fn read(&self, id: &CredId, uuid: &Option<String>) -> (r: Result<CredValue, Miss>)
        ensures
            exists|s: StoreModel| finite_model(s) && #[trigger] read_fits(s, id@, uuid_view(*uuid), r),
    {
        let (mut creds, handle) = self.creds.acquire_write();
        let ghost s = creds@;
        let r = creds.read(id, uuid);
        handle.release_write(creds);
        assert(read_fits(s, id@, uuid_view(*uuid), r));
        r
    }

    /// The uuid of the credential that `(id, uuid)` designates.
    pub fn locate(&self, id: &CredId, uuid: &Option<String>) -> (r: Result<String, Miss>)
        ensures
            exists|s: StoreModel| finite_model(s) && #[trigger] locate_fits(s, id@, uuid_view(*uuid), r),
    {
        let (mut creds, handle) = self.creds.acquire_write();
        let ghost s = creds@;
        let r = creds.locate(id, uuid);
        handle.release_write(creds);
        assert(locate_fits(s, id@, uuid_view(*uuid), r));
        r
    }

    /// Write `secret` through `(id, uuid)`; a new credential gets a fresh uuid.
    /// How many credentials the entry designates is decided, and the write
    /// made, under one hold of the lock: a write never lands on a bucket that
    /// turned ambiguous after it was counted.
    pub fn set_secret(&self, id: &CredId, uuid: &Option<String>, secret: &[u8]) -> (r: Result<(), Miss>)
        ensures
            exists|s: StoreModel| finite_model(s) && #[trigger] write_fits(s, id@, uuid_view(*uuid), r),
    {
        let fresh = new_uuid();
        let (mut creds, handle) = self.creds.acquire_write();
        let ghost s = creds@;
        let r = creds.set_secret(id, uuid, secret, fresh);
        handle.release_write(creds);
        assert(write_fits(s, id@, uuid_view(*uuid), r));
        r
    }

    /// Delete the credential that `(id, uuid)` designates.
    pub fn delete(&self, id: &CredId, uuid: &Option<String>) -> (r: Result<(), Miss>)
        ensures
            exists|s: StoreModel| finite_model(s) && #[trigger] change_fits(s, id@, uuid_view(*uuid), r),
    {
        let (mut creds, handle) = self.creds.acquire_write();
        let ghost s = creds@;
        let r = creds.delete(id, uuid);
        handle.release_write(creds);
        assert(change_fits(s, id@, uuid_view(*uuid), r));
        r
    }

    /// Update the attributes of the credential that `(id, uuid)` designates;
    /// pairs naming `creation_date` are refused and change nothing.
    pub fn update(&self, id: &CredId, uuid: &Option<String>, attrs: &[(&str, &str)]) -> (r: Result<(), Refusal>)
        ensures
            exists|s: StoreModel| finite_model(s) && #[trigger] update_fits(s, id@, uuid_view(*uuid), attrs@, r),
    {
        let (mut creds, handle) = self.creds.acquire_write();
        let ghost s = creds@;
        let r = creds.update(id, uuid, attrs);
        handle.release_write(creds);
        assert(update_fits(s, id@, uuid_view(*uuid), attrs@, r));
        r
    }

    /// A snapshot of the credentials: every pair with its bucket.
    pub fn snapshot(&self) -> (r: Vec<(CredId, Vec<(String, CredValue)>)>)
        ensures
            exists|s: StoreModel| finite_model(s) && #[trigger] snapshot_of(s, r@),
    {
        let (mut creds, handle) = self.creds.acquire_write();
        let ghost s = creds@;
        let r = creds.export();
        handle.release_write(creds);
        assert(snapshot_of(s, r@));
        r
    }

    /// Add a credential with value `value` to the bucket of `id` under a
    /// fresh uuid, and return that uuid; `None` where the uuid drawn was
    /// already taken in the bucket.
    pub fn add(&self, id: &CredId, value: CredValue) -> (r: Option<String>)
        ensures
            r is Some ==> exists|s: StoreModel| finite_model(s) && !(#[trigger] bucket_of(s, id@)).contains_key(r->0@),
    {
        let fresh = new_uuid();
        let kept = fresh.clone();
        let (mut creds, handle) = self.creds.acquire_write();
        let ghost s = creds@;
        let added = creds.add(id, fresh, value);
        handle.release_write(creds);
        if added {
            assert(!bucket_of(s, id@).contains_key(kept@));
            Some(kept)
        } else {
            None
        }
    }
}

/// The allowed build modifiers: only `target`.
pub open spec fn modifier_keys() -> Seq<Seq<char>> {
    seq!["target"@]
}

/// The modifiers given to a build, parsed.
pub open spec fn parsed_modifiers(mods: Option<&[(&str, &str)]>) -> Result<
    Map<Seq<char>, Seq<char>>,
    (Seq<char>, Seq<char>),
> {
    match mods {
        None => Ok(Map::empty()),
        Some(m) => parse_outcome(modifier_keys(), pairs_view(m@)),
    }
}

impl Store {
    /// An entry for `service` and `user`. Without modifiers it is a
    /// specifier and the store is unchanged. The `target` modifier adds a
    /// new credential to the pair's bucket, with an empty secret, the
    /// modifier's value as `comment` and the time as `creation_date`, and
    /// gives a wrapper of it. Any other modifier is `Invalid`.
    pub fn build(store: &Arc<Store>, service: &str, user: &str, mods: Option<&[(&str, &str)]>) -> (r: Result<Entry, Error>)
        ensures
            parsed_modifiers(mods) is Err ==> r is Err && r->Err_0 is Invalid
                && r->Err_0->Invalid_0@ == parsed_modifiers(mods)->Err_0.0
                && r->Err_0->Invalid_1@ == parsed_modifiers(mods)->Err_0.1,
            parsed_modifiers(mods) is Ok && !parsed_modifiers(mods)->Ok_0.contains_key("target"@) ==> r is Ok
                && r->Ok_0.is_sample() && r->Ok_0.handle().id@ == (service@, user@) && r->Ok_0.handle().uuid is None,
            parsed_modifiers(mods) is Ok && parsed_modifiers(mods)->Ok_0.contains_key("target"@) ==> (r is Ok
                && r->Ok_0.is_sample() && r->Ok_0.handle().id@ == (service@, user@) && r->Ok_0.handle().uuid is Some)
                || (r is Err
                && r->Err_0 is PlatformFailure),
            r is Ok ==> r->Ok_0.is_sample() && r->Ok_0.handle().store == *store,
            r is Ok && r->Ok_0.handle().uuid is Some ==> exists|s: StoreModel| finite_model(s) && !(#[trigger] bucket_of(
                s,
                (service@, user@),
            )).contains_key(uuid_view(r->Ok_0.handle().uuid)->0),
    {
        let keys: [&str; 1] = ["target"];
        let parsed = parse_attributes(keys.as_slice(), mods);
        proof {
            assert(strs_view(keys@) =~= modifier_keys());
        }
        let parsed = match parsed {
            Ok(p) => p,
            Err(e) => {
                return Err(e);
            },
        };
        let id = CredId { service: service.to_owned(), user: user.to_owned() };
        match parsed.get("target") {
            None => Ok(Entry::new_with_credential(Credential::Sample(CredKey { store: store.clone(), id, uuid: None }))),
            Some(comment) => {
                let value = CredValue::new_ambiguous(comment.as_str());
                match store.add(&id, value) {
                    Some(u) => Ok(Entry::new_with_credential(Credential::Sample(CredKey { store: store.clone(), id, uuid: Some(u) }))),
                    None => Err(Error::PlatformFailure("a fresh uuid was already taken".to_owned())),
                }
            },
        }
    }

    /// Search the store: `spec` gives regular expressions for `service`,
    /// `user`, `comment` and `uuid` (other keys are ignored), and a
    /// credential is found when each one given matches somewhere in its
    /// field. A pattern that does not compile fails with `Invalid`, naming
    /// the field. Each credential found comes back once, as a wrapper.
    pub fn search(store: &Arc<Store>, spec: &[(&str, &str)]) -> (r: Result<Vec<Entry>, Error>)
        ensures
            ({
                let m = map_of_pairs(pairs_view(spec@));
                match first_refused(m) {
                    Some(label) => r is Err && r->Err_0 is Invalid && r->Err_0->Invalid_0@ == label,
                    None => r is Ok && exists|s: StoreModel, hits: Seq<(CredId, String)>| finite_model(s)
                        && #[trigger] lists_found(s, m, hits) && wraps_hits(*store, r->Ok_0@, hits),
                }
            }),
    {
        let m = externalize_attributes(spec);
        let service = match compile_field(&m, "service", "service regex") {
            Ok(p) => p,
            Err(e) => {
                return Err(e);
            },
        };
        let user = match compile_field(&m, "user", "user regex") {
            Ok(p) => p,
            Err(e) => {
                return Err(e);
            },
        };
        let comment = match compile_field(&m, "comment", "comment regex") {
            Ok(p) => p,
            Err(e) => {
                return Err(e);
            },
        };
        let uuid = match compile_field(&m, "uuid", "uuid regex") {
            Ok(p) => p,
            Err(e) => {
                return Err(e);
            },
        };
        let filter = Filter { service, user, comment, uuid };
        let (mut creds, handle) = store.creds.acquire_write();
        let ghost s = creds@;
        let hits = creds.search(&filter);
        handle.release_write(creds);
        let mut entries: Vec<Entry> = Vec::new();
        let mut i: usize = 0;
        while i < hits.len()
            invariant
                i <= hits@.len(),
                entries@.len() == i,
                forall|j: int| 0 <= j < i ==> (#[trigger] entries@[j]).is_sample() && entries@[j].handle().store == *store
                    && entries@[j].handle().id@
                    == hits@[j].0@ && uuid_view(entries@[j].handle().uuid) == Some(hits@[j].1@),
            decreases hits@.len() - i,
        {
            let key = CredKey { store: store.clone(), id: hits[i].0.clone(), uuid: Some(hits[i].1.clone()) };
            entries.push(Entry::new_with_credential(Credential::Sample(key)));
            i = i + 1;
        }
        proof {
            lemma_filter_selects(filter, m@, s, hits@);
            assert(lists_found(s, m@, hits@));
            assert(wraps_hits(*store, entries@, hits@));
        }
        Ok(entries)
    }
}

/// The label of the first field, in the order `service`, `user`,
/// `comment`, `uuid`, whose pattern does not compile.
pub open spec fn first_refused(m: Map<Seq<char>, Seq<char>>) -> Option<Seq<char>> {
    if m.contains_key("service"@) && !regex_accepts(m["service"@]) {
        Some("service regex"@)
    } else if m.contains_key("user"@) && !regex_accepts(m["user"@]) {
        Some("user regex"@)
    } else if m.contains_key("comment"@) && !regex_accepts(m["comment"@]) {
        Some("comment regex"@)
    } else if m.contains_key("uuid"@) && !regex_accepts(m["uuid"@]) {
        Some("uuid regex"@)
    } else {
        None
    }
}

/// Each entry wraps the credential found at its position.
pub open spec fn wraps_hits(store: Arc<Store>, v: Seq<Entry>, hits: Seq<(CredId, String)>) -> bool {
    &&& v.len() == hits.len()
    &&& forall|i: int| 0 <= i < v.len() ==> (#[trigger] v[i]).is_sample() && v[i].handle().store == store
        && v[i].handle().id@ == hits[i].0@
        && uuid_view(v[i].handle().uuid) == Some(hits[i].1@)
}

/// The pattern for one field of a search, if the field is searched.
fn compile_field(m: &AttrMap, key: &str, label: &str) -> (r: Result<Option<Pattern>, Error>)
    ensures
        !m@.contains_key(key@) ==> r is Ok && r->Ok_0 is None,
        m@.contains_key(key@) && regex_accepts(m@[key@]) ==> r is Ok && r->Ok_0 is Some
            && r->Ok_0->0.source() == m@[key@],
        m@.contains_key(key@) && !regex_accepts(m@[key@]) ==> r is Err && r->Err_0 is Invalid
            && r->Err_0->Invalid_0@ == label@,
{
    match m.get(key) {
        None => Ok(None),
        Some(text) => match compile(text.as_str()) {
            Ok(p) => Ok(Some(p)),
            Err(why) => Err(Error::Invalid(label.to_owned(), why)),
        },
    }
}

proof fn lemma_filter_selects(f: Filter, m: Map<Seq<char>, Seq<char>>, s: StoreModel, hits: Seq<(CredId, String)>)
    requires
        lists_found(s, f@, hits),
        f.service is Some <==> m.contains_key("service"@),
        f.service is Some ==> f.service->0.source() == m["service"@],
        f.user is Some <==> m.contains_key("user"@),
        f.user is Some ==> f.user->0.source() == m["user"@],
        f.comment is Some <==> m.contains_key("comment"@),
        f.comment is Some ==> f.comment->0.source() == m["comment"@],
        f.uuid is Some <==> m.contains_key("uuid"@),
        f.uuid is Some ==> f.uuid->0.source() == m["uuid"@],
    ensures
        lists_found(s, m, hits),
{
    lemma_filter_view(f);
    assert forall|id: (Seq<char>, Seq<char>), u: Seq<char>, r: RecordView| #[trigger] selects(f@, id, u, r) == selects(m, id, u, r) by {}
    assert forall|id: (Seq<char>, Seq<char>), u: Seq<char>| #[trigger] found(s, f@, id, u) == found(s, m, id, u) by {
        if s.contains_key(id) && s[id].contains_key(u) {
            assert(selects(f@, id, u, s[id][u]) == selects(m, id, u, s[id][u]));
        }
    }
    assert forall|i: int| 0 <= i < hits.len() implies found(s, m, (#[trigger] hits[i]).0@, hits[i].1@) by {
        assert(found(s, f@, hits[i].0@, hits[i].1@));
    }
    assert forall|id: (Seq<char>, Seq<char>), u: Seq<char>| #[trigger] found(s, m, id, u) implies exists|i: int|
        0 <= i < hits.len() && #[trigger] hit_view(hits[i]) == (id, u) by {
        assert(found(s, f@, id, u));
    }
}

} // verus!
