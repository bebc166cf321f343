use std::sync::Arc;

use keyring_core::api::{CredentialPersistence, CredentialStore, CredentialStoreApi};
use keyring_core::mock::{contains_text, Cred, Store};
use keyring_core::{set_default_store, Credential, DefaultStore, Entry, Error};

fn usually_goes_in_main() -> DefaultStore {
    let mut slot = DefaultStore::new();
    set_default_store(&mut slot, CredentialStore::Mock(Store::new()));
    slot
}

fn entry_new(slot: &DefaultStore, service: &str, user: &str) -> Entry {
    match Entry::new(slot, service, user) {
        Ok(entry) => entry,
        Err(_) => panic!("Couldn't create entry (service: {service}, user: {user})"),
    }
}

fn unwrap<T>(result: Result<T, Error>) -> T {
    match result {
        Ok(value) => value,
        Err(e) => panic!("unexpected error: {}", e.message()),
    }
}

fn unwrap_err<T>(result: Result<T, Error>) -> Error {
    match result {
        Ok(_) => panic!("expected an error"),
        Err(e) => e,
    }
}

fn mock_of(entry: &Entry) -> &Arc<Cred> {
    match entry.as_any() {
        Credential::Mock(cred) => cred,
        Credential::Sample(_) => panic!("not a mock credential"),
    }
}

fn generate_random_string() -> String {
    std::iter::repeat_with(fastrand::alphanumeric).take(30).collect()
}

fn generate_random_bytes() -> Vec<u8> {
    std::iter::repeat_with(|| fastrand::u8(..)).take(24).collect()
}

// A round-trip password test that doesn't delete the credential afterward
fn test_round_trip_no_delete(case: &str, entry: &Entry, in_pass: &str) {
    unwrap(entry.set_password(in_pass));
    let out_pass = unwrap(entry.get_password());
    assert_eq!(
        in_pass, out_pass,
        "Passwords don't match for {case}: set='{in_pass}', get='{out_pass}'",
    )
}

// A round-trip password test that does delete the credential afterward
fn test_round_trip(case: &str, entry: &Entry, in_pass: &str) {
    test_round_trip_no_delete(case, entry, in_pass);
    unwrap(entry.delete_credential());
    let password = entry.get_password();
    assert!(matches!(password, Err(Error::NoEntry)));
}

// A round-trip secret test that does delete the credential afterward
fn test_round_trip_secret(case: &str, entry: &Entry, in_secret: &[u8]) {
    unwrap(entry.set_secret(in_secret));
    let out_secret = unwrap(entry.get_secret());
    assert_eq!(
        in_secret, &out_secret,
        "Secrets don't match for {case}: set='{in_secret:?}', get='{out_secret:?}'",
    );
    unwrap(entry.delete_credential());
    let secret = entry.get_secret();
    assert!(matches!(secret, Err(Error::NoEntry)));
}

#[test]
fn mock_test_empty_service_and_user() {
    let slot = usually_goes_in_main();
    let name = generate_random_string();
    let in_pass = "value doesn't matter";
    test_round_trip("empty user", &entry_new(&slot, &name, ""), in_pass);
    test_round_trip("empty service", &entry_new(&slot, "", &name), in_pass);
    test_round_trip("empty service and user", &entry_new(&slot, "", ""), in_pass);
}

#[test]
fn mock_test_empty_password() {
    let slot = usually_goes_in_main();
    let name = generate_random_string();
    let in_pass = "";
    test_round_trip("empty password", &entry_new(&slot, &name, &name), in_pass);
}

#[test]
fn mock_test_missing_entry() {
    let slot = usually_goes_in_main();
    let name = generate_random_string();
    let entry = entry_new(&slot, &name, &name);
    assert!(matches!(entry.get_password(), Err(Error::NoEntry)))
}

#[test]
fn mock_test_round_trip_ascii_password() {
    let slot = usually_goes_in_main();
    let name = generate_random_string();
    let entry = entry_new(&slot, &name, &name);
    test_round_trip("ascii password", &entry, "test ascii password");
}

#[test]
fn mock_test_round_trip_non_ascii_password() {
    let slot = usually_goes_in_main();
    let name = generate_random_string();
    let entry = entry_new(&slot, &name, &name);
    test_round_trip("non-ascii password", &entry, "このきれいな花は桜です");
}

#[test]
fn test_entries_with_same_and_different_specifiers() {
    let slot = usually_goes_in_main();
    let name1 = generate_random_string();
    let name2 = generate_random_string();
    let entry1 = entry_new(&slot, &name1, &name2);
    let entry2 = entry_new(&slot, &name1, &name2);
    let entry3 = entry_new(&slot, &name2, &name1);
    unwrap(entry1.set_password("test password"));
    let pw2 = unwrap(entry2.get_password());
    assert_eq!(pw2, "test password");
    _ = unwrap_err(entry3.get_password());
    unwrap(entry1.delete_credential());
    _ = unwrap_err(entry2.get_password());
    unwrap_err(entry3.delete_credential());
}

#[test]
fn test_get_credential_and_specifiers() {
    let slot = usually_goes_in_main();
    let name = generate_random_string();
    let entry1 = entry_new(&slot, &name, &name);
    assert!(matches!(entry1.get_credential(), Err(Error::NoEntry)));
    unwrap(entry1.set_password("password for entry1"));
    let wrapper = unwrap(entry1.get_credential());
    let (service, user) = wrapper.get_specifiers().unwrap();
    assert_eq!(service, name);
    assert_eq!(user, name);
    unwrap(wrapper.delete_credential());
    unwrap_err(entry1.delete_credential());
    unwrap_err(wrapper.delete_credential());
}

#[test]
fn mock_test_round_trip_random_secret() {
    let slot = usually_goes_in_main();
    let name = generate_random_string();
    let entry = entry_new(&slot, &name, &name);
    let secret = generate_random_bytes();
    test_round_trip_secret("non-ascii password", &entry, secret.as_slice());
}

#[test]
fn mock_test_update() {
    let slot = usually_goes_in_main();
    let name = generate_random_string();
    let entry = entry_new(&slot, &name, &name);
    test_round_trip_no_delete("initial ascii password", &entry, "test ascii password");
    test_round_trip(
        "updated non-ascii password",
        &entry,
        "このきれいな花は桜です",
    );
}

#[test]
fn mock_test_get_update_attributes() {
    let slot = usually_goes_in_main();
    let name = generate_random_string();
    let entry = entry_new(&slot, &name, &name);
    assert!(matches!(entry.get_attributes(), Err(Error::NoEntry)));
    let map = [("test attribute name", "test attribute value")];
    assert!(matches!(entry.update_attributes(&map), Err(Error::NoEntry)));
    // create the credential and test again
    unwrap(entry.set_password("test password for attributes"));
    match entry.get_attributes() {
        Err(_) => panic!("Couldn't get attributes"),
        Ok(attrs) if attrs.is_empty() => {}
        Ok(_) => panic!("Unexpected attributes"),
    }
    assert!(matches!(entry.update_attributes(&map), Ok(())));
    match entry.get_attributes() {
        Err(_) => panic!("Couldn't get attributes after update"),
        Ok(attrs) if attrs.is_empty() => {}
        Ok(_) => panic!("Unexpected attributes after update"),
    }
    unwrap(entry.delete_credential());
    assert!(matches!(entry.get_attributes(), Err(Error::NoEntry)));
}

#[test]
fn test_set_error() {
    let slot = usually_goes_in_main();
    let name = generate_random_string();
    let entry = entry_new(&slot, &name, &name);
    let password = "test ascii password";
    let mock = mock_of(&entry);
    mock.set_error(Error::Invalid(
        "mock error".to_string(),
        "is an error".to_string(),
    ));
    assert!(matches!(
        entry.set_password(password),
        Err(Error::Invalid(_, _))
    ));
    unwrap(entry.set_password(password));
    mock.set_error(Error::NoEntry);
    assert!(matches!(entry.get_password(), Err(Error::NoEntry)));
    let stored_password = unwrap(entry.get_password());
    assert_eq!(stored_password, password);
    mock.set_error(Error::TooLong("mock".to_string(), 3));
    assert!(matches!(
        entry.delete_credential(),
        Err(Error::TooLong(_, 3))
    ));
    unwrap(entry.delete_credential());
    assert!(matches!(entry.get_password(), Err(Error::NoEntry)))
}

#[test]
fn test_search() {
    let store = CredentialStore::Mock(Store::new());
    let all = unwrap(store.search(&[]));
    assert!(all.is_empty());
    let all = unwrap(store.search(&[("service", ""), ("user", "")]));
    assert!(all.is_empty());
    let e1 = unwrap(store.build("foo", "bar", None));
    unwrap(e1.set_password("e1"));
    let all = unwrap(store.search(&[]));
    assert_eq!(all.len(), 1);
    let all = unwrap(store.search(&[("service", ""), ("user", "")]));
    assert_eq!(all.len(), 1);
    let e2 = unwrap(store.build("foo", "bam", None));
    unwrap(e2.set_password("e2"));
    let one = unwrap(store.search(&[("user", "m")]));
    assert_eq!(one.len(), 1);
    let one = unwrap(store.search(&[("service", "foo"), ("user", "bar")]));
    assert_eq!(one.len(), 1);
    let two = unwrap(store.search(&[("service", "foo")]));
    assert_eq!(two.len(), 2);
    let all = unwrap(store.search(&[("foo", "bar")]));
    assert_eq!(all.len(), 2);
}

#[test]
fn test_persistence() {
    let store = CredentialStore::Mock(Store::new());
    assert!(matches!(
        store.persistence(),
        CredentialPersistence::ProcessOnly
    ))
}

#[test]
fn planted_error_does_not_change_the_secret() {
    let slot = usually_goes_in_main();
    let entry = entry_new(&slot, "planted", "error");
    unwrap(entry.set_password("kept"));
    mock_of(&entry).set_error(Error::NoStorageAccess("locked".to_string()));
    assert!(matches!(entry.set_password("lost"), Err(Error::NoStorageAccess(_))));
    assert_eq!(unwrap(entry.get_password()), "kept");
}

#[test]
fn substring_search_helper() {
    assert!(contains_text("foobar", "oba"));
    assert!(contains_text("foobar", ""));
    assert!(contains_text("", ""));
    assert!(!contains_text("foobar", "baz"));
    assert!(!contains_text("ab", "abc"));
    assert!(contains_text("このきれいな花", "きれい"));
}
