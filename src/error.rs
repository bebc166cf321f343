//! The error model shared by every store.
use vstd::prelude::*;
use vstd::string::StringExecFns;
use vstd::utf8::{decode_utf8, valid_utf8};

verus! {

/// Each variant summarises one kind of failure; details, where relevant,
/// are in the attached values.
pub enum Error {
    /// The underlying storage failed; the value describes the failure.
    PlatformFailure(String),
    /// The underlying storage could not be accessed; the value says why.
    NoStorageAccess(String),
    /// No credential matches the entry: either none was set, or it was deleted.
    NoEntry,
    /// The stored secret is not UTF-8; the bytes are attached.
    BadEncoding(Vec<u8>),
    /// The stored secret is not in the format the store expects.
    BadDataFormat(Vec<u8>, String),
    /// The named attribute is longer than the store's limit.
    TooLong(String, u32),
    /// A parameter was not acceptable: the parameter, and why.
    Invalid(String, String),
    /// More than one credential matches the entry; one wrapper entry per credential.
    Ambiguous(Vec<crate::Entry>),
    /// No default store was set.
    NoDefaultStore,
    /// The store (named by its vendor) does not support the operation.
    NotSupportedByStore(String),
}

/// Relies on `String::from_utf8`: it succeeds exactly on valid UTF-8, and its
/// error hands the bytes it was given back through `into_bytes`.
#[verifier::external_body]
fn string_from_utf8(bytes: Vec<u8>) -> (r: Result<String, Vec<u8>>)
    ensures
        match r {
            Ok(s) => valid_utf8(bytes@) && s@ == decode_utf8(bytes@),
            Err(b) => !valid_utf8(bytes@) && b@ == bytes@,
        },
{
    String::from_utf8(bytes).map_err(|e| e.into_bytes())
}

/// Interpret a secret as a password: its UTF-8 text, or `BadEncoding`
/// carrying the bytes unchanged.
pub fn decode_password(bytes: Vec<u8>) -> (r: Result<String, Error>)
    ensures
        valid_utf8(bytes@) <==> r is Ok,
        r is Ok ==> r->Ok_0@ == decode_utf8(bytes@),
        r is Err ==> (r->Err_0 is BadEncoding && r->Err_0->BadEncoding_0@ == bytes@),
{
    match string_from_utf8(bytes) {
        Ok(s) => Ok(s),
        Err(b) => Err(Error::BadEncoding(b)),
    }
}

/// The text of one decimal digit.
pub open spec fn digit_text(d: nat) -> Seq<char> {
    if d == 0 {
        "0"@
    } else if d == 1 {
        "1"@
    } else if d == 2 {
        "2"@
    } else if d == 3 {
        "3"@
    } else if d == 4 {
        "4"@
    } else if d == 5 {
        "5"@
    } else if d == 6 {
        "6"@
    } else if d == 7 {
        "7"@
    } else if d == 8 {
        "8"@
    } else {
        "9"@
    }
}

/// The decimal text of a number, without leading zeros.
pub open spec fn decimal_text(n: nat) -> Seq<char>
    decreases n,
{
    if n < 10 {
        digit_text(n)
    } else {
        decimal_text(n / 10) + digit_text(n % 10)
    }
}

fn digit(d: usize) -> (r: &'static str)
    requires
        d < 10,
    ensures
        r@ == digit_text(d as nat),
{
    if d == 0 {
        "0"
    } else if d == 1 {
        "1"
    } else if d == 2 {
        "2"
    } else if d == 3 {
        "3"
    } else if d == 4 {
        "4"
    } else if d == 5 {
        "5"
    } else if d == 6 {
        "6"
    } else if d == 7 {
        "7"
    } else if d == 8 {
        "8"
    } else {
        "9"
    }
}

/// The decimal text of `n`.
pub fn decimal(n: usize) -> (r: String)
    ensures
        r@ == decimal_text(n as nat),
    decreases n,
{
    if n < 10 {
        digit(n).to_owned()
    } else {
        decimal(n / 10).concat(digit(n % 10))
    }
}

/// The descriptions of a list of entries, separated by commas.
pub open spec fn entries_text(v: Seq<crate::Entry>) -> Seq<char>
    decreases v.len(),
{
    if v.len() == 0 {
        Seq::empty()
    } else if v.len() == 1 {
        crate::entry_text(v[0])
    } else {
        entries_text(v.drop_last()) + ", "@ + crate::entry_text(v.last())
    }
}

/// Describe each entry of a list, separated by commas.
fn describe_entries(v: &Vec<crate::Entry>) -> (r: String)
    ensures
        r@ == entries_text(v@),
{
    let mut text = String::new();
    let mut i: usize = 0;
    while i < v.len()
        invariant
            i <= v@.len(),
            text@ == entries_text(v@.take(i as int)),
        decreases v@.len() - i,
    {
        assert(v@.take(i + 1).drop_last() =~= v@.take(i as int));
        if i > 0 {
            text.append(", ");
        }
        let d = v[i].describe();
        text.append(d.as_str());
        proof {
            if i == 0 {
                assert(v@.take(1).len() == 1);
                assert(text@ =~= entries_text(v@.take(1)));
            }
        }
        i = i + 1;
    }
    assert(v@.take(v@.len() as int) =~= v@);
    text
}

/// The message that describes an error.
pub open spec fn message_text(e: Error) -> Seq<char> {
    match e {
        Error::PlatformFailure(why) => "Platform secure storage failure: "@ + why@,
        Error::NoStorageAccess(why) => "Couldn't access platform secure storage: "@ + why@,
        Error::NoEntry => "No matching entry found in secure storage"@,
        Error::BadEncoding(_) => "Data is not UTF-8 encoded"@,
        Error::BadDataFormat(_, why) => "Data is not in the expected format: "@ + why@,
        Error::TooLong(name, limit) => "Attribute '"@ + name@ + "' is longer than the platform limit of "@
            + decimal_text(limit as nat) + " chars"@,
        Error::Invalid(attr, reason) => "Attribute "@ + attr@ + " is invalid: "@ + reason@,
        Error::Ambiguous(items) => "Entry is matched by "@ + decimal_text(items@.len()) + " credentials: "@
            + entries_text(items@),
        Error::NoDefaultStore => "No default store has been set, so cannot search or create entries"@,
        Error::NotSupportedByStore(vendor) => "The store ("@ + vendor@ + ") does not support this operation"@,
    }
}

impl Error {
    /// A message describing the error, for people.
    pub fn message(&self) -> (r: String)
        ensures
            r@ == message_text(*self),
    {
        match self {
            Error::PlatformFailure(why) => "Platform secure storage failure: ".to_owned().concat(why.as_str()),
            Error::NoStorageAccess(why) => "Couldn't access platform secure storage: ".to_owned().concat(why.as_str()),
            Error::NoEntry => "No matching entry found in secure storage".to_owned(),
            Error::BadEncoding(_) => "Data is not UTF-8 encoded".to_owned(),
            Error::BadDataFormat(_, why) => "Data is not in the expected format: ".to_owned().concat(why.as_str()),
            Error::TooLong(name, limit) => "Attribute '".to_owned().concat(name.as_str()).concat(
                "' is longer than the platform limit of ",
            ).concat(decimal(*limit as usize).as_str()).concat(" chars"),
            Error::Invalid(attr, reason) => "Attribute ".to_owned().concat(attr.as_str()).concat(" is invalid: ").concat(
                reason.as_str(),
            ),
            Error::Ambiguous(items) => "Entry is matched by ".to_owned().concat(decimal(items.len()).as_str()).concat(
                " credentials: ",
            ).concat(describe_entries(items).as_str()),
            Error::NoDefaultStore => "No default store has been set, so cannot search or create entries".to_owned(),
            Error::NotSupportedByStore(vendor) => "The store (".to_owned().concat(vendor.as_str()).concat(
                ") does not support this operation",
            ),
        }
    }
}

} // verus!
