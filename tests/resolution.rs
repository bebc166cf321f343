use keyring_core::api::{CredentialStore, CredentialStoreApi};
use keyring_core::sample::cred_map::CredMap;
use keyring_core::sample::store::Store;
use keyring_core::{get_default_store, set_default_store, unset_default_store, Credential, DefaultStore, Entry, Error};

fn slot() -> DefaultStore {
    let mut slot = DefaultStore::new();
    match Store::new() {
        Ok(store) => set_default_store(&mut slot, CredentialStore::Sample(store)),
        Err(_) => panic!("Couldn't create a sample store"),
    }
    slot
}

fn ok<T>(result: Result<T, Error>, msg: &str) -> T {
    match result {
        Ok(value) => value,
        Err(_) => panic!("{msg}"),
    }
}

fn specifier(slot: &DefaultStore, service: &str, user: &str) -> Entry {
    ok(Entry::new(slot, service, user), "Couldn't create entry")
}

fn forced(slot: &DefaultStore, service: &str, user: &str, comment: &str) -> Entry {
    ok(
        Entry::new_with_modifiers(slot, service, user, &[("target", comment)]),
        "Couldn't create forced entry",
    )
}

fn uuid_of(entry: &Entry) -> Option<String> {
    match entry.as_any() {
        Credential::Sample(key) => key.uuid.clone(),
        Credential::Mock(_) => panic!("expected a sample store entry"),
    }
}

fn ambiguous_count<T>(result: Result<T, Error>) -> usize {
    match result {
        Err(Error::Ambiguous(entries)) => entries.len(),
        Err(_) => panic!("expected Ambiguous, got another error"),
        Ok(_) => panic!("expected Ambiguous, got success"),
    }
}

#[test]
fn scenario_disambiguate_by_attributes() {
    let slot = slot();
    let e1 = specifier(&slot, "svc", "usr");
    ok(e1.set_password("p1"), "set p1");
    let _e2 = forced(&slot, "svc", "usr", "second");
    let wrappers = match e1.get_password() {
        Err(Error::Ambiguous(entries)) => entries,
        _ => panic!("expected Ambiguous"),
    };
    assert_eq!(wrappers.len(), 2);
    let mut undated = 0;
    for wrapper in wrappers.iter() {
        let attrs = ok(wrapper.get_attributes(), "attributes of a wrapper");
        if !attrs.contains_key("creation_date") {
            undated += 1;
            assert_eq!(ok(wrapper.get_password(), "password of the undated credential"), "p1");
        }
    }
    assert_eq!(undated, 1);
}

#[test]
fn two_specifiers_share_a_credential() {
    let slot = slot();
    let a = specifier(&slot, "shared", "user");
    let b = specifier(&slot, "shared", "user");
    ok(a.set_secret(&[1, 2, 3]), "set through a");
    assert_eq!(ok(b.get_secret(), "get through b"), vec![1, 2, 3]);
    let other = specifier(&slot, "user", "shared");
    assert!(matches!(other.get_secret(), Err(Error::NoEntry)));
}

#[test]
fn delete_twice_gives_no_entry() {
    let slot = slot();
    let e = specifier(&slot, "del", "twice");
    ok(e.set_password("x"), "set");
    ok(e.delete_credential(), "first delete");
    assert!(matches!(e.delete_credential(), Err(Error::NoEntry)));
}

#[test]
fn three_forced_credentials_are_ambiguous_and_independent() {
    let slot = slot();
    let w1 = forced(&slot, "amb", "u", "one");
    let w2 = forced(&slot, "amb", "u", "two");
    let w3 = forced(&slot, "amb", "u", "three");
    let spec = specifier(&slot, "amb", "u");
    assert_eq!(ambiguous_count(spec.get_secret()), 3);
    assert_eq!(ambiguous_count(spec.set_password("refused")), 3);
    assert_eq!(ambiguous_count(spec.get_attributes()), 3);
    assert_eq!(ambiguous_count(spec.delete_credential()), 3);
    ok(w1.set_password("first"), "write through w1");
    ok(w2.set_password("second"), "write through w2");
    assert_eq!(ok(w3.get_password(), "read w3"), "");
    ok(w2.delete_credential(), "delete w2");
    assert!(matches!(w2.get_password(), Err(Error::NoEntry)));
    assert_eq!(ok(w1.get_password(), "read w1"), "first");
    assert_eq!(ambiguous_count(spec.get_secret()), 2);
    ok(w3.delete_credential(), "delete w3");
    assert_eq!(ok(spec.get_password(), "specifier now resolves"), "first");
}

#[test]
fn wrapper_stays_pinned_after_delete() {
    let slot = slot();
    let e = specifier(&slot, "pin", "u");
    ok(e.set_password("old"), "set");
    let wrapper = ok(e.get_credential(), "wrapper");
    ok(e.delete_credential(), "delete");
    assert!(matches!(wrapper.get_password(), Err(Error::NoEntry)));
    ok(e.set_password("new"), "recreate");
    assert!(matches!(wrapper.get_password(), Err(Error::NoEntry)));
    assert!(matches!(wrapper.set_password("again"), Err(Error::NoEntry)));
    assert_eq!(ok(e.get_password(), "read new"), "new");
}

#[test]
fn non_utf8_secret_round_trips_and_is_bad_encoding_as_password() {
    let slot = slot();
    let e = specifier(&slot, "bin", "u");
    let bytes = vec![0xff, 0x00, 0xc3, 0x28];
    ok(e.set_secret(&bytes), "set");
    assert_eq!(ok(e.get_secret(), "get"), bytes);
    match e.get_password() {
        Err(Error::BadEncoding(raw)) => assert_eq!(raw, bytes),
        _ => panic!("expected BadEncoding"),
    }
}

#[test]
fn creation_date_cannot_be_updated() {
    let slot = slot();
    let w = forced(&slot, "imm", "u", "note");
    let before = ok(w.get_attributes(), "attributes before");
    let date = before.get("creation_date").expect("forced credential has a date").clone();
    match w.update_attributes(&[("creation_date", "yesterday"), ("comment", "changed")]) {
        Err(Error::Invalid(key, reason)) => {
            assert_eq!(key, "creation_date");
            assert_eq!(reason, "cannot be updated");
        }
        _ => panic!("expected Invalid"),
    }
    let after = ok(w.get_attributes(), "attributes after");
    assert_eq!(after.get("creation_date"), Some(&date));
    assert_eq!(after.get("comment"), Some(&"note".to_string()));
}

#[test]
fn unknown_modifier_is_invalid() {
    let slot = slot();
    match Entry::new_with_modifiers(&slot, "s", "u", &[("force", "x")]) {
        Err(Error::Invalid(key, reason)) => {
            assert_eq!(key, "force");
            assert_eq!(reason, "unknown key");
        }
        _ => panic!("expected Invalid"),
    }
}

#[test]
fn no_default_store() {
    let mut slot = slot();
    assert!(get_default_store(&slot).is_some());
    assert!(unset_default_store(&mut slot).is_some());
    assert!(get_default_store(&slot).is_none());
    assert!(matches!(Entry::new(&slot, "s", "u"), Err(Error::NoDefaultStore)));
    assert!(matches!(Entry::search(&slot, &[]), Err(Error::NoDefaultStore)));
}

#[test]
fn get_credential_and_specifiers() {
    let slot = slot();
    let e = specifier(&slot, "svc-name", "user-name");
    assert!(matches!(e.get_credential(), Err(Error::NoEntry)));
    ok(e.set_password("pw"), "set");
    let wrapper = ok(e.get_credential(), "wrapper");
    assert!(uuid_of(&wrapper).is_some());
    assert!(uuid_of(&e).is_none());
    let (service, user) = wrapper.get_specifiers().expect("specifiers");
    assert_eq!(service, "svc-name");
    assert_eq!(user, "user-name");
    ok(wrapper.delete_credential(), "delete through wrapper");
    assert!(e.delete_credential().is_err());
    assert!(wrapper.delete_credential().is_err());
}

#[test]
fn forced_credentials_get_distinct_uuids() {
    let slot = slot();
    let a = forced(&slot, "ids", "u", "a");
    let b = forced(&slot, "ids", "u", "b");
    let ua = uuid_of(&a).expect("a is a wrapper");
    let ub = uuid_of(&b).expect("b is a wrapper");
    assert_ne!(ua, ub);
    assert_eq!(ua.len(), 36);
}

#[test]
fn search_matches_every_pattern_given() {
    let slot = slot();
    let e1 = specifier(&slot, "foo", "bar");
    ok(e1.set_password("e1"), "set e1");
    let e2 = specifier(&slot, "foo", "bam");
    ok(e2.set_password("e2"), "set e2");
    let _e3 = forced(&slot, "other", "bar", "tagged");
    assert_eq!(ok(Entry::search(&slot, &[]), "search all").len(), 3);
    assert_eq!(ok(Entry::search(&slot, &[("service", "^foo$")]), "by service").len(), 2);
    assert_eq!(ok(Entry::search(&slot, &[("user", "m")]), "by user").len(), 1);
    assert_eq!(ok(Entry::search(&slot, &[("service", "foo"), ("user", "bar")]), "both").len(), 1);
    assert_eq!(ok(Entry::search(&slot, &[("comment", "tag")]), "by comment").len(), 1);
    assert_eq!(ok(Entry::search(&slot, &[("ignored", "zzz")]), "unknown keys ignored").len(), 3);
    let found = ok(Entry::search(&slot, &[("user", "^bam$")]), "exact user");
    assert_eq!(ok(found[0].get_password(), "found entry reads"), "e2");
    assert!(uuid_of(&found[0]).is_some());
    match Entry::search(&slot, &[("user", "(")]) {
        Err(Error::Invalid(key, _)) => assert_eq!(key, "user regex"),
        _ => panic!("expected Invalid for a bad pattern"),
    }
}

#[test]
fn store_reports_vendor() {
    let store = CredentialStore::Sample(ok(Store::new(), "store"));
    assert_eq!(store.vendor(), "Sample store, https://crates.io/crates/keyring-core");
    assert!(store.id().starts_with("Sample store, instantiated at "));
}

#[test]
fn snapshot_rebuilds_the_same_credentials() {
    let store = ok(Store::new(), "store");
    let handle = CredentialStore::Sample(store.clone());
    let e1 = ok(handle.build("s1", "u1", None), "e1");
    ok(e1.set_password("pw1"), "set e1");
    let e2 = ok(handle.build("s2", "u2", None), "e2");
    ok(e2.set_password("pw2"), "set e2");
    let _unset = ok(handle.build("s3", "u3", None), "e3");
    let snapshot = store.snapshot();
    assert_eq!(snapshot.len(), 2);
    let copy = Store::new_internal(CredMap::import(snapshot), None);
    let copy_handle = CredentialStore::Sample(copy.clone());
    let r1 = ok(copy_handle.build("s1", "u1", None), "r1");
    assert_eq!(ok(r1.get_password(), "read r1"), "pw1");
    let r2 = ok(copy_handle.build("s2", "u2", None), "r2");
    assert_eq!(ok(r2.get_password(), "read r2"), "pw2");
    ok(e1.set_password("changed after the snapshot"), "set e1 again");
    assert_eq!(ok(r1.get_password(), "copy keeps the snapshot"), "pw1");
    assert_eq!(copy.snapshot().len(), 2);
}

#[test]
fn ambiguous_message_lists_the_wrappers() {
    let slot = slot();
    let a = forced(&slot, "msg", "u", "a");
    let b = forced(&slot, "msg", "u", "b");
    let ua = uuid_of(&a).expect("a is a wrapper");
    let ub = uuid_of(&b).expect("b is a wrapper");
    let spec = specifier(&slot, "msg", "u");
    assert_eq!(spec.describe(), "sample(msg, u, *)");
    match spec.get_secret() {
        Err(e) => {
            let text = e.message();
            assert!(text.starts_with("Entry is matched by 2 credentials: sample(msg, u, "));
            assert!(text.contains(&format!("sample(msg, u, {ua})")));
            assert!(text.contains(&format!("sample(msg, u, {ub})")));
        }
        Ok(_) => panic!("expected Ambiguous"),
    }
}

#[test]
fn wrapper_resolves_to_itself() {
    let slot = slot();
    let e = specifier(&slot, "self", "u");
    ok(e.set_password("pw"), "set");
    let wrapper = ok(e.get_credential(), "wrapper of the specifier");
    let again = ok(wrapper.get_credential(), "wrapper of the wrapper");
    assert_eq!(uuid_of(&again), uuid_of(&wrapper));
    ok(wrapper.delete_credential(), "delete");
    assert!(matches!(wrapper.get_credential(), Err(Error::NoEntry)));
}
