//! A mock credential store, for testing clients: in memory only, one
//! credential per `(service, user)` pair, and an error can be planted in a
//! credential to be returned by its next operation.
//!
//! A planted error takes precedence over the operation's usual behaviour,
//! is returned once, and is then cleared; it never changes the secret.
use std::sync::Arc;

use vstd::prelude::*;
use vstd::rwlock::{RwLock, RwLockPredicate};
use vstd::slice::slice_to_vec;
use vstd::string::StrSliceExecFns;
use vstd::utf8::{decode_utf8, valid_utf8};

use crate::api::CredentialPersistence;
use crate::attributes::{externalize_attributes, map_of_pairs, pairs_view, same_text};
use crate::error::Error;
use crate::{Credential, Entry};

verus! {

/// The bytes of an optional secret.
pub open spec fn secret_view(s: Option<Vec<u8>>) -> Option<Seq<u8>> {
    match s {
        Some(v) => Some(v@),
        None => None,
    }
}

/// The data of a mock credential: its secret, if set, and the error to
/// return from its next operation, if any.
pub struct CredData {
    pub secret: Option<Vec<u8>>,
    pub error: Option<Error>,
}

impl CredData {
    /// Set the secret, unless an error is planted: that error is returned instead.
    pub fn set_secret(&mut self, secret: &[u8]) -> (r: Result<(), Error>)
        ensures
            final(self).error is None,
            old(self).error is Some ==> r == Err::<(), Error>(old(self).error->0) && secret_view(final(self).secret)
                == secret_view(old(self).secret),
            old(self).error is None ==> r is Ok && secret_view(final(self).secret) == Some(secret@),
    {
        match self.error.take() {
            Some(err) => Err(err),
            None => {
                self.secret = Some(slice_to_vec(secret));
                Ok(())
            },
        }
    }

    /// The secret: the planted error if any, else `NoEntry` where none is set.
    pub fn get_secret(&mut self) -> (r: Result<Vec<u8>, Error>)
        ensures
            final(self).error is None,
            secret_view(final(self).secret) == secret_view(old(self).secret),
            old(self).error is Some ==> r == Err::<Vec<u8>, Error>(old(self).error->0),
            old(self).error is None && old(self).secret is None ==> r is Err && r->Err_0 is NoEntry,
            old(self).error is None && old(self).secret is Some ==> r is Ok && r->Ok_0@ == old(self).secret->0@,
    {
        match self.error.take() {
            Some(err) => Err(err),
            None => match &self.secret {
                None => Err(Error::NoEntry),
                Some(v) => Ok(v.clone()),
            },
        }
    }

    /// Delete the secret: the planted error if any, else `NoEntry` where none is set.
    pub fn delete(&mut self) -> (r: Result<(), Error>)
        ensures
            final(self).error is None,
            old(self).error is Some ==> r == Err::<(), Error>(old(self).error->0) && secret_view(final(self).secret)
                == secret_view(old(self).secret),
            old(self).error is None && old(self).secret is None ==> r is Err && r->Err_0 is NoEntry
                && final(self).secret is None,
            old(self).error is None && old(self).secret is Some ==> r is Ok && final(self).secret is None,
    {
        match self.error.take() {
            Some(err) => Err(err),
            None => match self.secret {
                Some(_) => {
                    self.secret = None;
                    Ok(())
                },
                None => Err(Error::NoEntry),
            },
        }
    }

    /// Check that a secret is set: the planted error if any, else `NoEntry`
    /// where none is set.
    pub fn check(&mut self) -> (r: Result<(), Error>)
        ensures
            final(self).error is None,
            secret_view(final(self).secret) == secret_view(old(self).secret),
            old(self).error is Some ==> r == Err::<(), Error>(old(self).error->0),
            old(self).error is None && old(self).secret is None ==> r is Err && r->Err_0 is NoEntry,
            old(self).error is None && old(self).secret is Some ==> r is Ok,
    {
        match self.error.take() {
            Some(err) => Err(err),
            None => match self.secret {
                Some(_) => Ok(()),
                None => Err(Error::NoEntry),
            },
        }
    }
}

/// What a write may give, given the credential's data when it ran.
pub open spec fn set_fits(d: CredData, r: Result<(), Error>) -> bool {
    &&& d.error is Some ==> r == Err::<(), Error>(d.error->0)
    &&& d.error is None ==> r is Ok
}

/// What a read may give, given the credential's data when it ran.
pub open spec fn read_fits(d: CredData, r: Result<Vec<u8>, Error>) -> bool {
    &&& d.error is Some ==> r == Err::<Vec<u8>, Error>(d.error->0)
    &&& d.error is None && d.secret is None ==> r is Err && r->Err_0 is NoEntry
    &&& d.error is None && d.secret is Some ==> r is Ok && r->Ok_0@ == d.secret->0@
}

/// What a delete or an existence check may give, given the credential's
/// data when it ran.
pub open spec fn check_fits(d: CredData, r: Result<(), Error>) -> bool {
    &&& d.error is Some ==> r == Err::<(), Error>(d.error->0)
    &&& d.error is None && d.secret is None ==> r is Err && r->Err_0 is NoEntry
    &&& d.error is None && d.secret is Some ==> r is Ok
}

/// What reading the password may give: the secret's UTF-8 text, or
/// `BadEncoding` with its bytes.
pub open spec fn password_fits(d: CredData, r: Result<String, Error>) -> bool {
    &&& d.error is Some ==> r == Err::<String, Error>(d.error->0)
    &&& d.error is None && d.secret is None ==> r is Err && r->Err_0 is NoEntry
    &&& d.error is None && d.secret is Some && valid_utf8(d.secret->0@) ==> r is Ok && r->Ok_0@ == decode_utf8(
        d.secret->0@,
    )
    &&& d.error is None && d.secret is Some && !valid_utf8(d.secret->0@) ==> r is Err && r->Err_0 is BadEncoding
        && r->Err_0->BadEncoding_0@ == d.secret->0@
}

/// What reading the attributes may give: none, where a read of the secret
/// would succeed.
pub open spec fn attributes_fit(d: CredData, r: Result<crate::attributes::AttrMap, Error>) -> bool {
    &&& d.error is Some ==> r is Err && r->Err_0 == d.error->0
    &&& d.error is None && d.secret is None ==> r is Err && r->Err_0 is NoEntry
    &&& d.error is None && d.secret is Some ==> r is Ok && r->Ok_0@.len() == 0
}

/// Any credential data may be behind a mock credential's lock.
pub struct AnyData;

impl RwLockPredicate<CredData> for AnyData {
    open spec fn inv(self, d: CredData) -> bool {
        true
    }
}

/// A mock credential: its `(service, user)` pair and its data, behind a lock.
pub struct Cred {
    pub specifiers: (String, String),
    inner: RwLock<CredData, AnyData>,
}

/// The pair of a mock credential, as text.
pub closed spec fn specifiers_view(c: Cred) -> (Seq<char>, Seq<char>) {
    (c.specifiers.0@, c.specifiers.1@)
}

impl Cred {
    /// A credential for `(service, user)` with no secret and no planted error.
    pub fn new(service: &str, user: &str) -> (r: Cred)
        ensures
            specifiers_view(r) == (service@, user@),
    {
        let data = CredData { secret: None, error: None };
        Cred { specifiers: (service.to_owned(), user.to_owned()), inner: RwLock::new(data, Ghost(AnyData)) }
    }

    /// Set the secret; a planted error is returned instead, once.
    pub fn set_secret(&self, secret: &[u8]) -> (r: Result<(), Error>)
        ensures
            exists|d: CredData| #[trigger] set_fits(d, r),
    {
        let (mut data, handle) = self.inner.acquire_write();
        let ghost d = data;
        let r = data.set_secret(secret);
        handle.release_write(data);
        assert(set_fits(d, r));
        r
    }

    /// Set the password: its UTF-8 encoding becomes the secret.
    pub fn set_password(&self, password: &str) -> (r: Result<(), Error>)
        ensures
            exists|d: CredData| #[trigger] set_fits(d, r),
    {
        self.set_secret(password.as_bytes())
    }

    /// The secret; a planted error is returned instead, once.
    pub fn get_secret(&self) -> (r: Result<Vec<u8>, Error>)
        ensures
            exists|d: CredData| #[trigger] read_fits(d, r),
    {
        let (mut data, handle) = self.inner.acquire_write();
        let ghost d = data;
        let r = data.get_secret();
        handle.release_write(data);
        assert(read_fits(d, r));
        r
    }

    /// The password: the secret as UTF-8 text.
    pub fn get_password(&self) -> (r: Result<String, Error>)
        ensures
            exists|d: CredData| #[trigger] password_fits(d, r),
    {
        let secret = self.get_secret();
        let ghost d = choose|d: CredData| #[trigger] read_fits(d, secret);
        let r = match secret {
            Ok(secret) => crate::error::decode_password(secret),
            Err(e) => Err(e),
        };
        assert(password_fits(d, r));
        r
    }

    /// Delete the secret; a planted error is returned instead, once.
    pub fn delete_credential(&self) -> (r: Result<(), Error>)
        ensures
            exists|d: CredData| #[trigger] check_fits(d, r),
    {
        let (mut data, handle) = self.inner.acquire_write();
        let ghost d = data;
        let r = data.delete();
        handle.release_write(data);
        assert(check_fits(d, r));
        r
    }

    /// Check that the credential exists; a planted error is returned instead, once.
    pub fn get_credential(&self) -> (r: Result<(), Error>)
        ensures
            exists|d: CredData| #[trigger] check_fits(d, r),
    {
        let (mut data, handle) = self.inner.acquire_write();
        let ghost d = data;
        let r = data.check();
        handle.release_write(data);
        assert(check_fits(d, r));
        r
    }

    /// The attributes: mock credentials have none. Fails as a read of the
    /// secret would.
    pub fn get_attributes(&self) -> (r: Result<crate::attributes::AttrMap, Error>)
        ensures
            exists|d: CredData| #[trigger] attributes_fit(d, r),
    {
        let secret = self.get_secret();
        let ghost d = choose|d: CredData| #[trigger] read_fits(d, secret);
        let r = match secret {
            Ok(_) => {
                let m = crate::attributes::AttrMap::new();
                Ok(m)
            },
            Err(e) => Err(e),
        };
        assert(attributes_fit(d, r));
        r
    }

    /// Update the attributes: there are none to update, so every key is
    /// ignored. Fails as a read of the secret would.
    pub fn update_attributes(&self, _attrs: &[(&str, &str)]) -> (r: Result<(), Error>)
        ensures
            exists|d: CredData| #[trigger] check_fits(d, r),
    {
        let secret = self.get_secret();
        let ghost d = choose|d: CredData| #[trigger] read_fits(d, secret);
        let r = match secret {
            Ok(_) => Ok(()),
            Err(e) => Err(e),
        };
        assert(check_fits(d, r));
        r
    }

    /// The `(service, user)` pair.
    pub fn get_specifiers(&self) -> (r: Option<(String, String)>)
        ensures
            r is Some && crate::sample::dash::pair_view(r->0) == specifiers_view(*self),
    {
        Some((self.specifiers.0.clone(), self.specifiers.1.clone()))
    }

    /// Plant an error, to be returned by the next operation.
    pub fn set_error(&self, err: Error) {
        let (mut data, handle) = self.inner.acquire_write();
        data.error = Some(err);
        handle.release_write(data);
    }
}

/// Whether `needle` occurs in `hay`.
pub open spec fn text_contains(hay: Seq<char>, needle: Seq<char>) -> bool {
    exists|i: int| 0 <= i && i + needle.len() <= hay.len() && #[trigger] hay.subrange(i, i + needle.len()) == needle
}

/// Whether `needle` occurs in `hay`.
pub fn contains_text(hay: &str, needle: &str) -> (r: bool)
    ensures
        r == text_contains(hay@, needle@),
{
    let n = hay.unicode_len();
    let m = needle.unicode_len();
    if m > n {
        assert forall|i: int| 0 <= i && i + needle@.len() <= hay@.len() implies #[trigger] hay@.subrange(i, i + needle@.len())
            != needle@ by {}
        return false;
    }
    let mut i: usize = 0;
    while i <= n - m
        invariant
            n == hay@.len(),
            m == needle@.len(),
            m <= n,
            forall|k: int| 0 <= k < i ==> #[trigger] hay@.subrange(k, k + m) != needle@,
        decreases n - m + 1 - i,
    {
        let mut j: usize = 0;
        let mut same = true;
        while j < m
            invariant
                n == hay@.len(),
                m == needle@.len(),
                i + m <= n,
                j <= m,
                same == forall|k: int| 0 <= k < j ==> hay@[i + k] == needle@[k],
            decreases m - j,
        {
            if hay.get_char(i + j) != needle.get_char(j) {
                same = false;
            }
            j = j + 1;
        }
        if same {
            assert(hay@.subrange(i as int, i + m) =~= needle@);
            return true;
        }
        assert(hay@.subrange(i as int, i + m) != needle@) by {
            let k = choose|k: int| 0 <= k < m && hay@[i + k] != needle@[k];
            assert(hay@.subrange(i as int, i + m)[k] == hay@[i + k]);
        }
        i = i + 1;
    }
    false
}

/// Any list of credentials may be behind the mock store's lock.
pub struct AnyCreds;

impl RwLockPredicate<Vec<Arc<Cred>>> for AnyCreds {
    open spec fn inv(self, v: Vec<Arc<Cred>>) -> bool {
        true
    }
}

/// The mock store: the credentials made so far, one per pair, reused for
/// entries with the same pair.
pub struct Store {
    inner: RwLock<Vec<Arc<Cred>>, AnyCreds>,
}

impl Store {
    /// An empty mock store.
    pub fn new() -> (r: Arc<Store>) {
        Arc::new(Store { inner: RwLock::new(Vec::new(), Ghost(AnyCreds)) })
    }

    /// The vendor of the mock store.
    pub fn vendor(&self) -> (r: String)
        ensures
            r@ == "keyring-core-mock"@,
    {
        "keyring-core-mock".to_owned()
    }

    /// The id of the mock store.
    pub fn id(&self) -> (r: String)
        ensures
            r@ == "singleton"@,
    {
        "singleton".to_owned()
    }

    /// Mock credentials last as long as the process.
    pub fn persistence(&self) -> (r: CredentialPersistence)
        ensures
            r is ProcessOnly,
    {
        CredentialPersistence::ProcessOnly
    }

    /// The entry for `service` and `user`: the pair's credential if one was
    /// made before, else a new one without a secret. Modifiers are ignored.
    pub fn build(&self, service: &str, user: &str, _mods: Option<&[(&str, &str)]>) -> (r: Result<Entry, Error>)
        ensures
            r is Ok && r->Ok_0.credential() is Mock && specifiers_view(*r->Ok_0.credential()->Mock_0) == (service@, user@),
    {
        let (mut creds, handle) = self.inner.acquire_write();
        let mut i: usize = 0;
        while i < creds.len()
            invariant
                i <= creds@.len(),
            decreases creds@.len() - i,
        {
            if same_text(creds[i].specifiers.0.as_str(), service) && same_text(creds[i].specifiers.1.as_str(), user) {
                let found = creds[i].clone();
                handle.release_write(creds);
                return Ok(Entry::new_with_credential(Credential::Mock(found)));
            }
            i = i + 1;
        }
        let cred = Arc::new(Cred::new(service, user));
        creds.push(cred.clone());
        handle.release_write(creds);
        Ok(Entry::new_with_credential(Credential::Mock(cred)))
    }

    /// The entries of the credentials whose service contains the `service`
    /// value of `spec` and whose user contains its `user` value; an absent
    /// value matches every credential, and other keys are ignored.
    pub fn search(&self, spec: &[(&str, &str)]) -> (r: Result<Vec<Entry>, Error>)
        ensures
            r is Ok,
            forall|i: int| 0 <= i < r->Ok_0@.len() ==> (#[trigger] r->Ok_0@[i]).credential() is Mock && mock_selects(
                map_of_pairs(pairs_view(spec@)),
                *r->Ok_0@[i].credential()->Mock_0,
            ),
    {
        let m = externalize_attributes(spec);
        let svc = match m.get("service") {
            Some(s) => s.clone(),
            None => "".to_owned(),
        };
        let usr = match m.get("user") {
            Some(u) => u.clone(),
            None => "".to_owned(),
        };
        let (creds, handle) = self.inner.acquire_write();
        let mut out: Vec<Entry> = Vec::new();
        let mut i: usize = 0;
        while i < creds.len()
            invariant
                i <= creds@.len(),
                svc@ == wanted_text(m@, "service"@),
                usr@ == wanted_text(m@, "user"@),
                m@ == map_of_pairs(pairs_view(spec@)),
                forall|k: int| 0 <= k < out@.len() ==> (#[trigger] out@[k]).credential() is Mock && mock_selects(
                    m@,
                    *out@[k].credential()->Mock_0,
                ),
            decreases creds@.len() - i,
        {
            let cred = &creds[i];
            if contains_text(cred.specifiers.0.as_str(), svc.as_str()) && contains_text(
                cred.specifiers.1.as_str(),
                usr.as_str(),
            ) {
                out.push(Entry::new_with_credential(Credential::Mock(cred.clone())));
            }
            i = i + 1;
        }
        handle.release_write(creds);
        Ok(out)
    }
}

/// The search value for `key`, or the empty text where none is given.
pub open spec fn wanted_text(m: Map<Seq<char>, Seq<char>>, key: Seq<char>) -> Seq<char> {
    if m.contains_key(key) {
        m[key]
    } else {
        ""@
    }
}

/// Whether a mock search selects the credential.
pub open spec fn mock_selects(m: Map<Seq<char>, Seq<char>>, c: Cred) -> bool {
    text_contains(specifiers_view(c).0, wanted_text(m, "service"@)) && text_contains(
        specifiers_view(c).1,
        wanted_text(m, "user"@),
    )
}

} // verus!
