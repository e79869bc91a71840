//! The accounts and passwords Cradle keeps in the Keychain.
use rand::RngExt;
use vstd::prelude::*;
use vstd::utf8::{decode_utf8, valid_utf8};

use crate::error::{CradleError, ErrorView};

verus! {

/// The Keychain service that all of Cradle's entries belong to.
pub const SERVICE: &'static str = "com.cradle.restic-repo-password";

/// The hexadecimal digit for `d`.
pub open spec fn hex_digit(d: nat) -> char {
    if d < 10 {
        (48 + d) as char
    } else {
        (87 + d) as char
    }
}

/// Bytes in hexadecimal, two digits each.
pub open spec fn hex(bytes: Seq<u8>) -> Seq<char>
    decreases bytes.len(),
{
    if bytes.len() == 0 {
        seq![]
    } else {
        hex(bytes.drop_last()).push(hex_digit(bytes.last() as nat / 16)).push(
            hex_digit(bytes.last() as nat % 16),
        )
    }
}

/// The hexadecimal digit for `d`.
fn hex_char(d: u8) -> (c: char)
    requires
        d < 16,
    ensures
        c == hex_digit(d as nat),
{
    if d < 10 {
        (48 + d) as char
    } else {
        (87 + d) as char
    }
}

/// Bytes in hexadecimal, two digits each.
pub fn hex_text(bytes: &[u8]) -> (out: String)
    ensures
        out@ == hex(bytes@),
{
    let mut out = String::new();
    let mut i: usize = 0;
    assert(bytes@.take(0) =~= seq![]);
    while i < bytes.len()
        invariant
            i <= bytes@.len(),
            out@ == hex(bytes@.take(i as int)),
        decreases bytes@.len() - i,
    {
        let b: u8 = bytes[i];
        out.push(hex_char(b / 16));
        out.push(hex_char(b % 16));
        assert(bytes@.take(i + 1).drop_last() =~= bytes@.take(i as int));
        i = i + 1;
    }
    assert(bytes@.take(i as int) =~= bytes@);
    out
}

/// Calls `fill` of `rand::rng()`: `n` bytes, of which nothing more is known. Where
/// the system has no randomness to seed it with, it panics, whatever `n` is.
#[verifier::external_body]
fn random_bytes(n: usize) -> (bytes: Vec<u8>)
    ensures
        bytes@.len() == n,
{
    let mut bytes = vec![0u8; n];
    rand::rng().fill(&mut bytes[..]);
    bytes
}

/// The account of a destination's password: its name, and a suffix that sets
/// it apart from any other destination of that name.
pub open spec fn destination_account_text(name: Seq<char>, suffix: Seq<u8>) -> Seq<char> {
    "cradle-destination-"@ + name + "-"@ + hex(suffix)
}

/// The account of a destination's password, with the suffix given.
pub fn destination_account(name: &str, suffix: &[u8]) -> (account: String)
    ensures
        account@ == destination_account_text(name@, suffix@),
{
    "cradle-destination-".to_owned().concat(name).concat("-").concat(hex_text(suffix).as_str())
}

/// A new account for a destination's password.
pub fn new_destination_account(destination_name: &str) -> (account: String)
    ensures
        exists|suffix: Seq<u8>|
            suffix.len() == 8 && account@ == #[trigger] destination_account_text(
                destination_name@,
                suffix,
            ),
{
    let suffix = random_bytes(8);
    destination_account(destination_name, suffix.as_slice())
}

/// The account of a device's backup password.
pub fn device_account(udid: &str) -> (account: String)
    ensures
        account@ == "cradle-device-backup-"@ + udid@,
{
    "cradle-device-backup-".to_owned().concat(udid)
}

/// A new password: 32 random bytes in hexadecimal.
pub fn generate_password() -> (password: String)
    ensures
        exists|bytes: Seq<u8>| bytes.len() == 32 && password@ == #[trigger] hex(bytes),
{
    let bytes = random_bytes(32);
    hex_text(bytes.as_slice())
}

/// Hexadecimal digits are told apart.
proof fn hex_digit_injective(a: nat, b: nat)
    requires
        a < 16,
        b < 16,
        hex_digit(a) == hex_digit(b),
    ensures
        a == b,
{
}

/// Different bytes, equally many, are different in hexadecimal.
pub proof fn law_hex_tells_apart(a: Seq<u8>, b: Seq<u8>)
    requires
        a.len() == b.len(),
        hex(a) == hex(b),
    ensures
        a == b,
    decreases a.len(),
{
    if a.len() > 0 {
        let x = hex(a);
        let y = hex(b);
        let n = x.len();
        assert(x[n - 1] == y[n - 1] && x[n - 2] == y[n - 2]);
        hex_digit_injective(a.last() as nat / 16, b.last() as nat / 16);
        hex_digit_injective(a.last() as nat % 16, b.last() as nat % 16);
        assert(hex(a.drop_last()) =~= x.take(n - 2));
        assert(hex(b.drop_last()) =~= y.take(n - 2));
        law_hex_tells_apart(a.drop_last(), b.drop_last());
        assert(a =~= a.drop_last().push(a.last()));
        assert(b =~= b.drop_last().push(b.last()));
    } else {
        assert(a =~= b);
    }
}

/// Two destinations of the same name have different accounts, unless chance
/// gives them the same suffix.
pub proof fn law_accounts_differ(name: Seq<char>, a: Seq<u8>, b: Seq<u8>)
    requires
        a.len() == b.len(),
        a != b,
    ensures
        destination_account_text(name, a) != destination_account_text(name, b),
{
    if destination_account_text(name, a) == destination_account_text(name, b) {
        let head = "cradle-destination-"@ + name + "-"@;
        let n = head.len() as int;
        assert((head + hex(a)).skip(n) =~= hex(a));
        assert((head + hex(b)).skip(n) =~= hex(b));
        law_hex_tells_apart(a, b);
    }
}

/// What the Keychain answers when asked for an entry.
#[derive(Debug)]
pub enum KeychainReply {
    Found(Vec<u8>),
    /// There is no such entry; the Keychain's words for that.
    NotFound(String),
    /// It could not be read; the Keychain's words for that.
    Failed(String),
}

/// Calls `String::from_utf8`: the text that bytes encode, where they are UTF-8.
#[verifier::external_body]
fn utf8_text(bytes: Vec<u8>) -> (r: Option<String>)
    ensures
        match r {
            Some(s) => valid_utf8(bytes@) && s@ == decode_utf8(bytes@),
            None => !valid_utf8(bytes@),
        },
{
    String::from_utf8(bytes).ok()
}

/// The password in a Keychain entry, or why there is none.
pub open spec fn password_in(bytes: Seq<u8>) -> Result<Seq<char>, ErrorView> {
    if valid_utf8(bytes) {
        Ok(decode_utf8(bytes))
    } else {
        Err(ErrorView::Other("Keychain entry was not valid UTF-8"@))
    }
}

/// What is said when an entry cannot be read.
pub open spec fn unreadable(words: Seq<char>) -> ErrorView {
    ErrorView::Other("could not read Keychain entry: "@ + words)
}

/// The password in a Keychain entry that has to be there.
pub fn read(reply: KeychainReply) -> (r: Result<String, CradleError>)
    ensures
        crate::error::viewed(r) == (match reply {
            KeychainReply::Found(bytes) => password_in(bytes@),
            KeychainReply::NotFound(words) => Err(unreadable(words@)),
            KeychainReply::Failed(words) => Err(unreadable(words@)),
        }),
{
    match reply {
        KeychainReply::Found(bytes) => match utf8_text(bytes) {
            Some(s) => Ok(s),
            None => Err(CradleError::Other("Keychain entry was not valid UTF-8".to_owned())),
        },
        KeychainReply::NotFound(words) => Err(
            CradleError::Other(
                "could not read Keychain entry: ".to_owned().concat(words.as_str()),
            ),
        ),
        KeychainReply::Failed(words) => Err(
            CradleError::Other(
                "could not read Keychain entry: ".to_owned().concat(words.as_str()),
            ),
        ),
    }
}

/// The password in a Keychain entry that need not be there.
pub fn try_read(reply: KeychainReply) -> (r: Result<Option<String>, CradleError>)
    ensures
        match (reply, r) {
            (KeychainReply::Found(bytes), Ok(Some(s))) => password_in(bytes@) == Ok::<
                _,
                ErrorView,
            >(s@),
            (KeychainReply::Found(bytes), Err(e)) => password_in(bytes@) == Err::<Seq<char>, _>(
                e@,
            ),
            (KeychainReply::NotFound(_), Ok(None)) => true,
            (KeychainReply::Failed(words), Err(e)) => e@ == unreadable(words@),
            _ => false,
        },
{
    match reply {
        KeychainReply::NotFound(_) => Ok(None),
        other => match read(other) {
            Ok(s) => Ok(Some(s)),
            Err(e) => Err(e),
        },
    }
}

/// What comes of storing an entry.
pub fn store(reply: Result<(), String>) -> (r: Result<(), CradleError>)
    ensures
        match (reply, r) {
            (Ok(()), Ok(())) => true,
            (Err(words), Err(e)) => e@ == ErrorView::Other(
                "could not store Keychain entry: "@ + words@,
            ),
            _ => false,
        },
{
    match reply {
        Ok(()) => Ok(()),
        Err(words) => Err(
            CradleError::Other(
                "could not store Keychain entry: ".to_owned().concat(words.as_str()),
            ),
        ),
    }
}

/// What comes of deleting an entry.
pub fn delete(reply: Result<(), String>) -> (r: Result<(), CradleError>)
    ensures
        match (reply, r) {
            (Ok(()), Ok(())) => true,
            (Err(words), Err(e)) => e@ == ErrorView::Other(
                "could not delete Keychain entry: "@ + words@,
            ),
            _ => false,
        },
{
    match reply {
        Ok(()) => Ok(()),
        Err(words) => Err(
            CradleError::Other(
                "could not delete Keychain entry: ".to_owned().concat(words.as_str()),
            ),
        ),
    }
}

/// What comes of generating a password and storing it: the password, once it
/// is stored.
pub fn generate_and_store(password: String, stored: Result<(), String>) -> (r: Result<
    String,
    CradleError,
>)
    ensures
        match (stored, r) {
            (Ok(()), Ok(p)) => p == password,
            (Err(words), Err(e)) => e@ == ErrorView::Other(
                "could not store Keychain entry: "@ + words@,
            ),
            _ => false,
        },
{
    match store(stored) {
        Ok(()) => Ok(password),
        Err(e) => Err(e),
    }
}

/// Each byte is two digits, the higher half first; the digits are those of ten, and the
/// first six small letters.
pub proof fn law_hex_digits(bytes: Seq<u8>, i: int)
    requires
        0 <= i < bytes.len(),
    ensures
        hex(bytes).len() == 2 * bytes.len(),
        hex(bytes)[2 * i] == hex_digit(bytes[i] as nat / 16),
        hex(bytes)[2 * i + 1] == hex_digit(bytes[i] as nat % 16),
        hex_digit(0) == '0',
        hex_digit(9) == '9',
        hex_digit(10) == 'a',
        hex_digit(15) == 'f',
    decreases bytes.len(),
{
    if i < bytes.len() - 1 {
        law_hex_digits(bytes.drop_last(), i);
    } else if bytes.len() > 1 {
        law_hex_digits(bytes.drop_last(), 0);
    } else {
        assert(hex(bytes.drop_last()).len() == 0);
    }
}

/// A destination's account is named for it, with its suffix behind.
pub proof fn law_destination_account(name: Seq<char>, suffix: Seq<u8>)
    ensures
        destination_account_text(name, suffix) == "cradle-destination-"@ + name + "-"@ + hex(
            suffix,
        ),
{
}

/// An entry that is text is the password, and one that is not is refused.
pub proof fn law_password_in(bytes: Seq<u8>)
    ensures
        valid_utf8(bytes) ==> password_in(bytes) == Ok::<_, ErrorView>(decode_utf8(bytes)),
        !valid_utf8(bytes) ==> password_in(bytes) is Err,
{
}

/// An entry that cannot be read is told in the Keychain's words, and one that is no text
/// as that.
pub proof fn law_unreadable(words: Seq<char>, bytes: Seq<u8>)
    ensures
        unreadable(words).text() == "could not read Keychain entry: "@ + words,
        !valid_utf8(bytes) ==> password_in(bytes) == Err::<Seq<char>, _>(
            ErrorView::Other("Keychain entry was not valid UTF-8"@),
        ),
{
}

} // verus!
