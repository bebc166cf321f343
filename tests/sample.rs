use keyring_core::api::{CredentialPersistence, CredentialStore, CredentialStoreApi};
use keyring_core::sample::store::Store;
use keyring_core::{set_default_store, DefaultStore, Entry, Error};

fn usually_goes_in_main() -> DefaultStore {
    let mut slot = DefaultStore::new();
    match Store::new() {
        Ok(store) => set_default_store(&mut slot, CredentialStore::Sample(store)),
        Err(_) => panic!("Couldn't create a sample store"),
    }
    slot
}

fn entry_new(slot: &DefaultStore, service: &str, user: &str) -> Entry {
    match Entry::new(slot, service, user) {
        Ok(entry) => entry,
        Err(_) => panic!("Couldn't create entry (service: {service}, user: {user})"),
    }
}

fn entry_new_with_modifiers(slot: &DefaultStore, service: &str, user: &str, mods: &[(&str, &str)]) -> Entry {
    match Entry::new_with_modifiers(slot, service, user, mods) {
        Ok(entry) => entry,
        Err(_) => panic!("Couldn't create entry (service: {service}, user: {user})"),
    }
}

fn expect<T>(result: Result<T, Error>, msg: &str) -> T {
    match result {
        Ok(value) => value,
        Err(_) => panic!("{msg}"),
    }
}

fn expect_err<T>(result: Result<T, Error>, msg: &str) -> Error {
    match result {
        Ok(_) => panic!("{msg}"),
        Err(e) => e,
    }
}

fn generate_random_string() -> String {
    std::iter::repeat_with(fastrand::alphanumeric).take(12).collect()
}

fn generate_random_bytes() -> Vec<u8> {
    std::iter::repeat_with(|| fastrand::u8(..)).take(24).collect()
}

// A round-trip password test that doesn't delete the credential afterward
fn test_round_trip_no_delete(case: &str, entry: &Entry, in_pass: &str) {
    expect(entry.set_password(in_pass), &format!("Can't set password for {case}"));
    let out_pass = expect(entry.get_password(), &format!("Can't get password for {case}"));
    assert_eq!(
        in_pass, out_pass,
        "Passwords don't match for {case}: set='{in_pass}', get='{out_pass}'",
    )
}

// A round-trip password test that does delete the credential afterward
fn test_round_trip(case: &str, entry: &Entry, in_pass: &str) {
    test_round_trip_no_delete(case, entry, in_pass);
    expect(entry.delete_credential(), &format!("Can't delete password for {case}"));
    let password = entry.get_password();
    assert!(
        matches!(password, Err(Error::NoEntry)),
        "Read deleted password for {case}",
    );
}

// A round-trip secret test that does delete the credential afterward
fn test_round_trip_secret(case: &str, entry: &Entry, in_secret: &[u8]) {
    expect(entry.set_secret(in_secret), &format!("Can't set secret for {case}"));
    let out_secret = expect(entry.get_secret(), &format!("Can't get secret for {case}"));
    assert_eq!(
        in_secret, &out_secret,
        "Secrets don't match for {case}: set='{in_secret:?}', get='{out_secret:?}'",
    );
    expect(entry.delete_credential(), &format!("Can't delete credential for {case}"));
    let secret = entry.get_secret();
    assert!(
        matches!(secret, Err(Error::NoEntry)),
        "Read deleted password for {case}",
    );
}

#[test]
fn test_test_empty_service_and_user() {
    let slot = usually_goes_in_main();
    let name = generate_random_string();
    let in_pass = "doesn't matter";
    test_round_trip("empty user", &entry_new(&slot, &name, ""), in_pass);
    test_round_trip("empty service", &entry_new(&slot, "", &name), in_pass);
    test_round_trip("empty service & user", &entry_new(&slot, "", ""), in_pass);
}

#[test]
fn test_test_empty_password() {
    let slot = usually_goes_in_main();
    let name = generate_random_string();
    let in_pass = "";
    test_round_trip("empty password", &entry_new(&slot, &name, &name), in_pass);
}

#[test]
fn test_test_missing_entry() {
    let slot = usually_goes_in_main();
    let name = generate_random_string();
    let entry = entry_new(&slot, &name, &name);
    assert!(
        matches!(entry.get_password(), Err(Error::NoEntry)),
        "Missing entry has password"
    )
}

#[test]
fn test_test_round_trip_ascii_password() {
    let slot = usually_goes_in_main();
    let name = generate_random_string();
    let entry = entry_new(&slot, &name, &name);
    test_round_trip("ascii password", &entry, "test ascii password");
}

#[test]
fn test_test_round_trip_non_ascii_password() {
    let slot = usually_goes_in_main();
    let name = generate_random_string();
    let entry = entry_new(&slot, &name, &name);
    test_round_trip("non-ascii password", &entry, "このきれいな花は桜です");
}

#[test]
fn test_test_round_trip_random_secret() {
    let slot = usually_goes_in_main();
    let name = generate_random_string();
    let entry = entry_new(&slot, &name, &name);
    let secret = generate_random_bytes();
    test_round_trip_secret("non-ascii password", &entry, secret.as_slice());
}

#[test]
fn test_test_update() {
    let slot = usually_goes_in_main();
    let name = generate_random_string();
    let entry = entry_new(&slot, &name, &name);
    test_round_trip_no_delete("initial ascii password", &entry, "test ascii password");
    test_round_trip(
        "updated non-ascii password",
        &entry,
        "このきれいな花は桜です",
    );
}

#[test]
fn test_duplicate_entries() {
    let slot = usually_goes_in_main();
    let name = generate_random_string();
    let entry1 = entry_new(&slot, &name, &name);
    let entry2 = entry_new(&slot, &name, &name);
    expect(entry1.set_password("password for entry1"), "Can't set password for entry1");
    let password = expect(entry2.get_password(), "Can't get password for entry2");
    assert_eq!(password, "password for entry1");
    expect(entry2.set_password("password for entry2"), "Can't set password for entry2");
    let password = expect(entry1.get_password(), "Can't get password for entry1");
    assert_eq!(password, "password for entry2");
    expect(entry1.delete_credential(), "Can't delete entry1");
    expect_err(entry2.delete_credential(), "Can delete entry2");
}

#[test]
fn test_test_get_update_attributes() {
    let slot = usually_goes_in_main();
    let name = generate_random_string();
    let entry1 = entry_new(&slot, &name, &name);
    assert!(matches!(entry1.get_attributes(), Err(Error::NoEntry)));
    expect(entry1.set_password("password for entry1"), "Can't set password for entry1");
    let attrs = expect(entry1.get_attributes(), "Can't get entry1 attributes");
    assert_eq!(attrs.len(), 0);
    let no_op_map = [("foo", "bar")];
    let forbidden_map = [("creation_date", "doesn't matter")];
    let comment_map = [("comment", "some comment")];
    assert!(matches!(entry1.update_attributes(&no_op_map), Ok(())));
    assert!(matches!(
        entry1.update_attributes(&forbidden_map),
        Err(Error::Invalid(_, _))
    ));
    expect(entry1.update_attributes(&comment_map), "Can't update attributes for entry1");
    assert_eq!(
        expect(entry1.get_attributes(), "Can't get attributes for entry1")
            .get("comment")
            .expect("No comment on entry1"),
        "some comment"
    );
    let entry2 = entry_new_with_modifiers(&slot, &name, &name, &[("target", "entry2")]);
    assert_eq!(expect(entry2.get_password(), "Can't get entry2 password"), "");
    let attrs = expect(entry2.get_attributes(), "Can't get entry2 attributes");
    assert_eq!(attrs.len(), 2);
    assert_eq!(attrs.get("comment").unwrap(), "entry2");
    assert!(attrs.contains_key("creation_date"));
    expect(entry2.update_attributes(&comment_map), "Can't update attributes for entry1");
    assert_eq!(
        expect(entry2.get_attributes(), "Can't get attributes for entry2")
            .get("comment")
            .expect("No comment on entry2"),
        "some comment"
    );
    // the pair now has two credentials, so the specifier entry1 is ambiguous
    // until the wrapper entry2 deletes its own
    assert!(matches!(entry1.delete_credential(), Err(Error::Ambiguous(_))));
    expect(entry2.delete_credential(), "Can't delete entry2");
    expect(entry1.delete_credential(), "Can't delete entry1");
}

#[test]
fn test_multiple_create_delete_single_thread() {
    let slot = usually_goes_in_main();
    let name = generate_random_string();
    let entry = entry_new(&slot, &name, &name);
    let repeats = 10;
    for _i in 0..repeats {
        expect(entry.set_password(&name), "Can't set ascii password");
        let stored_password = expect(entry.get_password(), "Can't get ascii password");
        assert_eq!(
            stored_password, name,
            "Retrieved and set ascii passwords don't match"
        );
        expect(entry.delete_credential(), "Can't delete ascii password");
        assert!(
            matches!(entry.get_password(), Err(Error::NoEntry)),
            "Able to read a deleted ascii password"
        );
    }
}

#[test]
fn test_persistence_no_backing() {
    let store = CredentialStore::Sample(expect(Store::new(), "Couldn't create a sample store"));
    assert!(matches!(
        store.persistence(),
        CredentialPersistence::ProcessOnly
    ));
}
