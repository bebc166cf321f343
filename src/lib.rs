//! A cross-platform model of secret storage: entries that resolve, through a
//! credential store, to zero, one or many stored credentials.
use vstd::prelude::*;
use vstd::string::StringExecFns;

pub mod api;
pub mod attributes;
pub mod error;
pub mod mock;
pub mod sample;

pub use api::CredentialPersistence;
pub use error::Error;

use std::sync::Arc;

use api::CredentialStore;
use sample::cred_map::{finite_model, lists_found, StoreModel};
use sample::cred_map::{resolves, target, uuid_view};
use sample::credential::{attributes_fit, password_fits, secret_fits, wrapper_fits, CredId, CredKey};
use sample::store::{first_refused, parsed_modifiers, wraps_hits, Store};

verus! {

/// A credential of one of the known kinds of store.
pub enum Credential {
    /// A handle on the sample store.
    Sample(CredKey),
    /// A credential of the mock store.
    Mock(Arc<mock::Cred>),
}

/// A description of an entry: its store's kind, pair and, for a sample
/// store handle, its uuid or `*` for a specifier.
pub open spec fn entry_text(e: Entry) -> Seq<char> {
    match e.credential() {
        Credential::Sample(key) => "sample("@ + key.id.service@ + ", "@ + key.id.user@ + ", "@ + match key.uuid {
            Some(u) => u@,
            None => "*"@,
        } + ")"@,
        Credential::Mock(cred) => "mock("@ + mock::specifiers_view(*cred).0 + ", "@ + mock::specifiers_view(*cred).1
            + ")"@,
    }
}

/// A handle on a credential. In the sample store it is a specifier, which
/// names a `(service, user)` pair, or a wrapper, pinned to one stored
/// credential.
pub struct Entry {
    inner: Credential,
}

impl Entry {
    /// The credential this entry forwards to.
    pub closed spec fn credential(&self) -> Credential {
        self.inner
    }

    /// Whether the entry is a handle on the sample store.
    pub open spec fn is_sample(&self) -> bool {
        self.credential() is Sample
    }

    /// The sample store handle, for an entry of the sample store.
    pub open spec fn handle(&self) -> CredKey {
        self.credential()->Sample_0
    }

    /// An entry wrapping the given credential.
    pub fn new_with_credential(credential: Credential) -> (r: Entry)
        ensures
            r.credential() == credential,
    {
        Entry { inner: credential }
    }

    /// Set the password: its UTF-8 encoding becomes the secret.
    pub fn set_password(&self, password: &str) -> (r: Result<(), Error>)
        ensures
            self.is_sample() && r is Err ==> self.handle().miss_error(r->Err_0),
            self.is_sample() && self.handle().uuid is None ==> !(r is Err && r->Err_0 is NoEntry),
            !self.is_sample() ==> exists|d: mock::CredData| #[trigger] mock::set_fits(d, r),
    {
        match &self.inner {
            Credential::Sample(key) => key.set_password(password),
            Credential::Mock(cred) => cred.set_password(password),
        }
    }

    /// Set the secret: a specifier matching no credential creates one; one
    /// matching several fails with `Ambiguous`; a wrapper whose credential
    /// was deleted fails with `NoEntry`.
    pub fn set_secret(&self, secret: &[u8]) -> (r: Result<(), Error>)
        ensures
            self.is_sample() && r is Err ==> self.handle().miss_error(r->Err_0),
            self.is_sample() && self.handle().uuid is None ==> !(r is Err && r->Err_0 is NoEntry),
            !self.is_sample() ==> exists|d: mock::CredData| #[trigger] mock::set_fits(d, r),
    {
        match &self.inner {
            Credential::Sample(key) => key.set_secret(secret),
            Credential::Mock(cred) => cred.set_secret(secret),
        }
    }

    /// The password: the secret as UTF-8 text, or `BadEncoding`.
    pub fn get_password(&self) -> (r: Result<String, Error>)
        ensures
            self.is_sample() && r is Err ==> self.handle().miss_error(r->Err_0) || r->Err_0 is BadEncoding,
            self.is_sample() ==> exists|s: StoreModel| finite_model(s) && #[trigger] password_fits(
                s,
                self.handle().id@,
                uuid_view(self.handle().uuid),
                r,
            ),
            !self.is_sample() ==> exists|d: mock::CredData| #[trigger] mock::password_fits(d, r),
    {
        match &self.inner {
            Credential::Sample(key) => key.get_password(),
            Credential::Mock(cred) => cred.get_password(),
        }
    }

    /// The secret: `NoEntry` where nothing matches, `Ambiguous` where a
    /// specifier matches several credentials.
    pub fn get_secret(&self) -> (r: Result<Vec<u8>, Error>)
        ensures
            self.is_sample() && r is Err ==> self.handle().miss_error(r->Err_0),
            self.is_sample() ==> exists|s: StoreModel| finite_model(s) && #[trigger] secret_fits(
                s,
                self.handle().id@,
                uuid_view(self.handle().uuid),
                r,
            ),
            !self.is_sample() ==> exists|d: mock::CredData| #[trigger] mock::read_fits(d, r),
    {
        match &self.inner {
            Credential::Sample(key) => key.get_secret(),
            Credential::Mock(cred) => cred.get_secret(),
        }
    }

    /// The store-specific attributes of the credential.
    pub fn get_attributes(&self) -> (r: Result<attributes::AttrMap, Error>)
        ensures
            self.is_sample() && r is Err ==> self.handle().miss_error(r->Err_0),
            self.is_sample() ==> exists|s: StoreModel| finite_model(s) && #[trigger] attributes_fit(
                s,
                self.handle().id@,
                uuid_view(self.handle().uuid),
                r,
            ),
            !self.is_sample() ==> exists|d: mock::CredData| #[trigger] mock::attributes_fit(d, r),
    {
        match &self.inner {
            Credential::Sample(key) => key.get_attributes(),
            Credential::Mock(cred) => cred.get_attributes(),
        }
    }

    /// Update the store-specific attributes of the credential.
    pub fn update_attributes(&self, attributes: &[(&str, &str)]) -> (r: Result<(), Error>)
        ensures
            self.is_sample() && sample::credential::has_key(attributes::pairs_view(attributes@), "creation_date"@)
                ==> r is Err && r->Err_0 is Invalid,
            self.is_sample() && !sample::credential::has_key(attributes::pairs_view(attributes@), "creation_date"@)
                && r is Err ==> self.handle().miss_error(r->Err_0),
            !self.is_sample() ==> exists|d: mock::CredData| #[trigger] mock::check_fits(d, r),
    {
        match &self.inner {
            Credential::Sample(key) => key.update_attributes(attributes),
            Credential::Mock(cred) => cred.update_attributes(attributes),
        }
    }

    /// Delete the matching credential; the entry itself stays usable.
    pub fn delete_credential(&self) -> (r: Result<(), Error>)
        ensures
            self.is_sample() && r is Err ==> self.handle().miss_error(r->Err_0),
            !self.is_sample() ==> exists|d: mock::CredData| #[trigger] mock::check_fits(d, r),
    {
        match &self.inner {
            Credential::Sample(key) => key.delete_credential(),
            Credential::Mock(cred) => cred.delete_credential(),
        }
    }

    /// An entry wrapping the credential this entry currently matches: a
    /// new wrapper for a specifier, a copy of this entry for a wrapper or a
    /// mock credential.
    pub fn get_credential(&self) -> (r: Result<Entry, Error>)
        ensures
            self.is_sample() && r is Ok ==> r->Ok_0.is_sample() && r->Ok_0.handle().id@ == self.handle().id@
                && r->Ok_0.handle().uuid is Some && r->Ok_0.handle().store == self.handle().store,
            self.is_sample() && r is Ok && self.handle().uuid is Some ==> uuid_view(r->Ok_0.handle().uuid)
                == uuid_view(self.handle().uuid),
            self.is_sample() ==> exists|s: StoreModel| finite_model(s) && (r is Ok <==> #[trigger] resolves(
                s,
                self.handle().id@,
                uuid_view(self.handle().uuid),
            )) && (r is Ok && self.handle().uuid is None ==> uuid_view(r->Ok_0.handle().uuid) == Some(
                target(s, self.handle().id@, None),
            )),
            self.is_sample() && r is Err ==> self.handle().miss_error(r->Err_0),
            !self.is_sample() && r is Ok ==> r->Ok_0.credential() == self.credential(),
            !self.is_sample() ==> exists|d: mock::CredData| #[trigger] mock::check_fits(d, unit_result(r)),
    {
        match &self.inner {
            Credential::Sample(key) => {
                let found = key.get_credential();
                let ghost s = choose|s: StoreModel| finite_model(s) && #[trigger] wrapper_fits(s, key.id@, uuid_view(key.uuid), found);
                match found {
                    Ok(Some(wrapper)) => Ok(Entry { inner: Credential::Sample(wrapper) }),
                    Ok(None) => Ok(Entry { inner: Credential::Sample(key.duplicate()) }),
                    Err(e) => Err(e),
                }
            },
            Credential::Mock(cred) => {
                let found = cred.get_credential();
                let ghost d = choose|d: mock::CredData| #[trigger] mock::check_fits(d, found);
                match found {
                    Ok(()) => {
                        let r: Result<Entry, Error> = Ok(Entry { inner: Credential::Mock(cred.clone()) });
                        assert(mock::check_fits(d, unit_result(r)));
                        r
                    },
                    Err(e) => {
                        let r = Err(e);
                        assert(mock::check_fits(d, unit_result(r)));
                        r
                    },
                }
            },
        }
    }

    /// The `(service, user)` pair of this entry.
    pub fn get_specifiers(&self) -> (r: Option<(String, String)>)
        ensures
            r is Some,
            self.is_sample() ==> sample::dash::pair_view(r->0) == self.handle().id@,
            !self.is_sample() ==> sample::dash::pair_view(r->0) == mock::specifiers_view(*self.credential()->Mock_0),
    {
        match &self.inner {
            Credential::Sample(key) => key.get_specifiers(),
            Credential::Mock(cred) => cred.get_specifiers(),
        }
    }

    /// A description of the entry, for people.
    pub fn describe(&self) -> (r: String)
        ensures
            r@ == entry_text(*self),
    {
        match &self.inner {
            Credential::Sample(key) => {
                let uuid = match &key.uuid {
                    Some(u) => u.as_str(),
                    None => "*",
                };
                "sample(".to_owned().concat(key.id.service.as_str()).concat(", ").concat(key.id.user.as_str()).concat(
                    ", ",
                ).concat(uuid).concat(")")
            },
            Credential::Mock(cred) => {
                let pair = cred.get_specifiers();
                match pair {
                    Some((service, user)) => "mock(".to_owned().concat(service.as_str()).concat(", ").concat(
                        user.as_str(),
                    ).concat(")"),
                    None => String::new(),
                }
            },
        }
    }

    /// The store-specific credential inside this entry.
    pub fn as_any(&self) -> (r: &Credential)
        ensures
            *r == self.credential(),
    {
        &self.inner
    }
}

/// A result with its success value dropped.
pub open spec fn unit_result(r: Result<Entry, Error>) -> Result<(), Error> {
    match r {
        Ok(_) => Ok(()),
        Err(e) => Err(e),
    }
}

/// The slot holding the store that entries are built in by default.
///
/// A process keeps one, set at startup before entries are made, and
/// releases the store when it is done with it.
pub struct DefaultStore {
    inner: Option<CredentialStore>,
}

impl DefaultStore {
    /// The store in the slot, if any.
    pub closed spec fn current(&self) -> Option<CredentialStore> {
        self.inner
    }

    /// An empty slot.
    pub fn new() -> (r: DefaultStore)
        ensures
            r.current() is None,
    {
        DefaultStore { inner: None }
    }
}

/// Set the store used by default to build entries.
pub fn set_default_store(slot: &mut DefaultStore, new: CredentialStore)
    ensures
        final(slot).current() == Some(new),
{
    slot.inner = Some(new);
}

/// The store used by default to build entries, if one is set.
pub fn get_default_store(slot: &DefaultStore) -> (r: Option<CredentialStore>)
    ensures
        r == slot.current(),
{
    match &slot.inner {
        Some(store) => Some(store.clone()),
        None => None,
    }
}

/// Release the default store, handing it back.
pub fn unset_default_store(slot: &mut DefaultStore) -> (r: Option<CredentialStore>)
    ensures
        r == old(slot).current(),
        final(slot).current() is None,
{
    let r = match &slot.inner {
        Some(store) => Some(store.clone()),
        None => None,
    };
    slot.inner = None;
    r
}

/// What building an entry in the slot's store gives: `NoDefaultStore`
/// without a store, else what that kind of store's build gives.
pub open spec fn build_fits(
    slot: DefaultStore,
    service: Seq<char>,
    user: Seq<char>,
    mods: Option<&[(&str, &str)]>,
    r: Result<Entry, Error>,
) -> bool {
    match slot.current() {
        None => r is Err && r->Err_0 is NoDefaultStore,
        Some(CredentialStore::Mock(_)) => r is Ok && r->Ok_0.credential() is Mock && mock::specifiers_view(
            *r->Ok_0.credential()->Mock_0,
        ) == (service, user),
        Some(CredentialStore::Sample(store)) => {
            &&& r is Ok ==> r->Ok_0.is_sample() && r->Ok_0.handle().store == store
            &&& match parsed_modifiers(mods) {
                Err(bad) => r is Err && r->Err_0 is Invalid && r->Err_0->Invalid_0@ == bad.0
                    && r->Err_0->Invalid_1@ == bad.1,
                Ok(m) => if m.contains_key("target"@) {
                    (r is Ok && r->Ok_0.handle().id@ == (service, user) && r->Ok_0.handle().uuid is Some
                        && exists|s: StoreModel| finite_model(s) && !(#[trigger] sample::cred_map::bucket_of(
                        s,
                        (service, user),
                    )).contains_key(uuid_view(r->Ok_0.handle().uuid)->0)) || (r is Err
                        && r->Err_0 is PlatformFailure)
                } else {
                    r is Ok && r->Ok_0.handle().id@ == (service, user) && r->Ok_0.handle().uuid is None
                },
            }
        },
    }
}

fn build_default_credential(slot: &DefaultStore, service: &str, user: &str, mods: Option<&[(&str, &str)]>) -> (r: Result<Entry, Error>)
    ensures
        build_fits(*slot, service@, user@, mods, r),
{
    match &slot.inner {
        Some(CredentialStore::Sample(store)) => Store::build(store, service, user, mods),
        Some(CredentialStore::Mock(store)) => store.build(service, user, mods),
        None => Err(Error::NoDefaultStore),
    }
}

impl Entry {
    /// A specifier entry for `service` and `user`, built in the default
    /// store; `NoDefaultStore` if none is set.
    pub fn new(slot: &DefaultStore, service: &str, user: &str) -> (r: Result<Entry, Error>)
        ensures
            build_fits(*slot, service@, user@, None, r),
            slot.current() is Some ==> r is Ok,
    {
        build_default_credential(slot, service, user, None)
    }

    /// An entry for `service` and `user`, built in the default store with
    /// store-specific modifiers.
    pub fn new_with_modifiers(slot: &DefaultStore, service: &str, user: &str, modifiers: &[(&str, &str)]) -> (r: Result<
        Entry,
        Error,
    >)
        ensures
            build_fits(*slot, service@, user@, Some(modifiers), r),
    {
        build_default_credential(slot, service, user, Some(modifiers))
    }

    /// Search the default store, returning wrappers of the credentials found.
    pub fn search(slot: &DefaultStore, spec: &[(&str, &str)]) -> (r: Result<Vec<Entry>, Error>)
        ensures
            slot.current() is None ==> r is Err && r->Err_0 is NoDefaultStore,
            slot.current() matches Some(CredentialStore::Mock(_)) ==> r is Ok && forall|i: int|
                0 <= i < r->Ok_0@.len() ==> (#[trigger] r->Ok_0@[i]).credential() is Mock && mock::mock_selects(
                    attributes::map_of_pairs(attributes::pairs_view(spec@)),
                    *r->Ok_0@[i].credential()->Mock_0,
                ),
            slot.current() is Some && slot.current()->0 is Sample ==> ({
                let m = attributes::map_of_pairs(attributes::pairs_view(spec@));
                match first_refused(m) {
                    Some(label) => r is Err && r->Err_0 is Invalid && r->Err_0->Invalid_0@ == label,
                    None => r is Ok && exists|s: StoreModel, hits: Seq<(CredId, String)>| finite_model(s)
                        && #[trigger] lists_found(s, m, hits) && wraps_hits(slot.current()->0->Sample_0, r->Ok_0@, hits),
                }
            }),
    {
        match &slot.inner {
            Some(CredentialStore::Sample(store)) => Store::search(store, spec),
            Some(CredentialStore::Mock(store)) => store.search(spec),
            None => Err(Error::NoDefaultStore),
        }
    }
}

} // verus!
