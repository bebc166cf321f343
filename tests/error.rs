use keyring_core::error::{decimal, decode_password};
use keyring_core::Error;

#[test]
fn test_bad_password() {
    // malformed sequences here taken from:
    // https://www.cl.cam.ac.uk/~mgk25/ucs/examples/UTF-8-test.txt
    for bytes in [b"\x80".to_vec(), b"\xbf".to_vec(), b"\xed\xa0\xa0".to_vec()] {
        match decode_password(bytes.clone()) {
            Err(Error::BadEncoding(str)) => assert_eq!(str, bytes),
            Err(_) => panic!("Bad password ({bytes:?}) decode gave wrong error"),
            Ok(s) => panic!("Bad password ({bytes:?}) decode gave results: {s:?}"),
        }
    }
}

#[test]
fn good_password_decodes() {
    match decode_password("このきれいな花は桜です".as_bytes().to_vec()) {
        Ok(s) => assert_eq!(s, "このきれいな花は桜です"),
        Err(_) => panic!("valid UTF-8 should decode"),
    }
    match decode_password(Vec::new()) {
        Ok(s) => assert_eq!(s, ""),
        Err(_) => panic!("empty bytes should decode"),
    }
}

#[test]
fn messages_describe_errors() {
    assert_eq!(decimal(0), "0");
    assert_eq!(decimal(7), "7");
    assert_eq!(decimal(1234), "1234");
    assert_eq!(
        Error::TooLong("mock".to_string(), 3).message(),
        "Attribute 'mock' is longer than the platform limit of 3 chars"
    );
    assert_eq!(
        Error::Invalid("user regex".to_string(), "bad".to_string()).message(),
        "Attribute user regex is invalid: bad"
    );
    assert_eq!(Error::NoEntry.message(), "No matching entry found in secure storage");
    assert_eq!(Error::Ambiguous(Vec::new()).message(), "Entry is matched by 0 credentials: ");
    assert_eq!(
        Error::NotSupportedByStore("vendor".to_string()).message(),
        "The store (vendor) does not support this operation"
    );
    assert_eq!(
        Error::NoDefaultStore.message(),
        "No default store has been set, so cannot search or create entries"
    );
}
