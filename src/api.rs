//! The capabilities that stores and their credentials offer.
use std::sync::Arc;

use vstd::prelude::*;

use crate::attributes::AttrMap;
use crate::error::Error;
use crate::sample::store::Store;
use crate::mock;
use crate::{Credential, Entry};

verus! {

/// How long stored credentials last.
#[non_exhaustive]
pub enum CredentialPersistence {
    /// As long as the entry.
    EntryOnly,
    /// As long as the process.
    ProcessOnly,
    /// Until the user logs out.
    UntilLogout,
    /// Until the machine reboots.
    UntilReboot,
    /// Until the credential is deleted.
    UntilDelete,
    /// Not known.
    Unspecified,
}

/// The per-credential operations of a store.
pub trait CredentialApi {
    /// Set the protected data to the UTF-8 encoding of `password`.
    fn set_password(&self, password: &str) -> Result<(), Error> {
        self.set_secret(password.as_bytes())
    }

    /// Set the protected data.
    fn set_secret(&self, secret: &[u8]) -> Result<(), Error>;

    /// The protected data as UTF-8 text.
    fn get_password(&self) -> Result<String, Error>;

    /// The protected data.
    fn get_secret(&self) -> Result<Vec<u8>, Error>;

    /// The store-specific attributes of the credential.
    fn get_attributes(&self) -> Result<AttrMap, Error>;

    /// Update the store-specific attributes of the credential.
    fn update_attributes(&self, attrs: &[(&str, &str)]) -> Result<(), Error>;

    /// Delete the credential.
    fn delete_credential(&self) -> Result<(), Error>;

    /// A wrapper for the credential.
    fn get_credential(&self) -> Result<Entry, Error>;

    /// The `(service, user)` pair, if any.
    fn get_specifiers(&self) -> Option<(String, String)>;
}

impl CredentialApi for Credential {
    fn set_secret(&self, secret: &[u8]) -> Result<(), Error> {
        match self {
            Credential::Sample(key) => key.set_secret(secret),
            Credential::Mock(cred) => cred.set_secret(secret),
        }
    }

    fn get_password(&self) -> Result<String, Error> {
        match self {
            Credential::Sample(key) => key.get_password(),
            Credential::Mock(cred) => cred.get_password(),
        }
    }

    fn get_secret(&self) -> Result<Vec<u8>, Error> {
        match self {
            Credential::Sample(key) => key.get_secret(),
            Credential::Mock(cred) => cred.get_secret(),
        }
    }

    fn get_attributes(&self) -> Result<AttrMap, Error> {
        match self {
            Credential::Sample(key) => key.get_attributes(),
            Credential::Mock(cred) => cred.get_attributes(),
        }
    }

    fn update_attributes(&self, attrs: &[(&str, &str)]) -> Result<(), Error> {
        match self {
            Credential::Sample(key) => key.update_attributes(attrs),
            Credential::Mock(cred) => cred.update_attributes(attrs),
        }
    }

    fn delete_credential(&self) -> Result<(), Error> {
        match self {
            Credential::Sample(key) => key.delete_credential(),
            Credential::Mock(cred) => cred.delete_credential(),
        }
    }

    fn get_credential(&self) -> Result<Entry, Error> {
        match self {
            Credential::Sample(key) => match key.get_credential() {
                Ok(Some(wrapper)) => Ok(Entry::new_with_credential(Credential::Sample(wrapper))),
                Ok(None) => Ok(Entry::new_with_credential(Credential::Sample(key.duplicate()))),
                Err(e) => Err(e),
            },
            Credential::Mock(cred) => match cred.get_credential() {
                Ok(()) => Ok(Entry::new_with_credential(Credential::Mock(cred.clone()))),
                Err(e) => Err(e),
            },
        }
    }

    fn get_specifiers(&self) -> Option<(String, String)> {
        match self {
            Credential::Sample(key) => key.get_specifiers(),
            Credential::Mock(cred) => cred.get_specifiers(),
        }
    }
}

/// The store-level operations of a store.
pub trait CredentialStoreApi {
    /// The vendor of the store.
    fn vendor(&self) -> String;

    /// The id of this store instance.
    fn id(&self) -> String;

    /// An entry for `service` and `user`, with store-specific modifiers.
    fn build(&self, service: &str, user: &str, modifiers: Option<&[(&str, &str)]>) -> Result<Entry, Error>;

    /// The entries of the credentials that match `spec`; by default,
    /// search is not supported.
    fn search(&self, _spec: &[(&str, &str)]) -> Result<Vec<Entry>, Error> {
        Err(Error::NotSupportedByStore(self.vendor()))
    }

    /// How long the store's credentials last; by default, until deleted.
    fn persistence(&self) -> CredentialPersistence {
        CredentialPersistence::UntilDelete
    }
}

/// A store of one of the known kinds.
pub enum CredentialStore {
    /// The sample store.
    Sample(Arc<Store>),
    /// The mock store.
    Mock(Arc<mock::Store>),
}

impl Clone for CredentialStore {
    fn clone(&self) -> (r: CredentialStore)
        ensures
            r == *self,
    {
        match self {
            CredentialStore::Sample(s) => CredentialStore::Sample(s.clone()),
            CredentialStore::Mock(s) => CredentialStore::Mock(s.clone()),
        }
    }
}

impl CredentialStoreApi for CredentialStore {
    fn vendor(&self) -> String {
        match self {
            CredentialStore::Sample(s) => s.vendor(),
            CredentialStore::Mock(s) => s.vendor(),
        }
    }

    fn id(&self) -> String {
        match self {
            CredentialStore::Sample(s) => s.id(),
            CredentialStore::Mock(s) => s.id(),
        }
    }

    fn build(&self, service: &str, user: &str, modifiers: Option<&[(&str, &str)]>) -> Result<Entry, Error> {
        match self {
            CredentialStore::Sample(s) => Store::build(s, service, user, modifiers),
            CredentialStore::Mock(s) => s.build(service, user, modifiers),
        }
    }

    fn search(&self, spec: &[(&str, &str)]) -> Result<Vec<Entry>, Error> {
        match self {
            CredentialStore::Sample(s) => Store::search(s, spec),
            CredentialStore::Mock(s) => s.search(spec),
        }
    }

    fn persistence(&self) -> CredentialPersistence {
        match self {
            CredentialStore::Sample(s) => s.persistence(),
            CredentialStore::Mock(s) => s.persistence(),
        }
    }
}

} // verus!
