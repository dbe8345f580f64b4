//! The key that unlocks a database.

use vstd::prelude::*;
use crate::text::pop_char;

verus! {

/// keepass's key for opening a database.
#[verifier::external_type_specification]
#[verifier::external_body]
pub struct ExDatabaseKey(keepass::DatabaseKey);

/// The passwords that a key holds: none, or the one it was given. (A
/// keepass key holds at most one password, and at most one key file.)
pub uninterp spec fn key_passwords(k: keepass::DatabaseKey) -> Seq<Seq<char>>;

/// The contents of the key files that a key holds: none, or the one it was
/// given.
pub uninterp spec fn key_files(k: keepass::DatabaseKey) -> Seq<Seq<u8>>;

/// A key with no password and no key file (keepass's `DatabaseKey::new`).
///
/// Trusted: the contract claims, as keepass's source shows (the key's
/// fields all start out `None`), that the key holds no password and no key
/// file.
#[verifier::external_body]
fn new_key() -> (r: keepass::DatabaseKey)
    ensures
        key_passwords(r) == Seq::<Seq<char>>::empty(),
        key_files(r) == Seq::<Seq<u8>>::empty(),
{
    keepass::DatabaseKey::new()
}

/// The key with its password set (keepass's `DatabaseKey::with_password`).
///
/// Trusted: the contract claims, as keepass's source shows, that the key
/// then holds exactly the given password, and the same key file as before.
#[verifier::external_body]
fn key_with_password(key: keepass::DatabaseKey, password: &str) -> (r: keepass::DatabaseKey)
    ensures
        key_passwords(r) == seq![password@],
        key_files(r) == key_files(key),
{
    key.with_password(password)
}

/// The key for a database that needs no key: no password, no key file.
pub fn empty_key() -> (r: keepass::DatabaseKey)
    ensures
        key_passwords(r) == Seq::<Seq<char>>::empty(),
        key_files(r) == Seq::<Seq<u8>>::empty(),
{
    new_key()
}

/// The key for a database locked with `password` alone: that password and
/// no key file.
pub fn password_key(password: &str) -> (r: keepass::DatabaseKey)
    ensures
        key_passwords(r) == seq![password@],
        key_files(r) == Seq::<Seq<u8>>::empty(),
{
    key_with_password(new_key(), password)
}

/// The password that a password file holds: its text without one final
/// `\n`, or `\r\n`.
pub open spec fn spec_password_from_file(s: Seq<char>) -> Seq<char> {
    if s.len() > 0 && s.last() == '\n' {
        let t = s.drop_last();
        if t.len() > 0 && t.last() == '\r' {
            t.drop_last()
        } else {
            t
        }
    } else {
        s
    }
}

/// The password that a password file holds: a final line ending, `\n` or
/// `\r\n`, is not part of it.
pub fn password_from_file(contents: String) -> (r: String)
    ensures
        r@ == spec_password_from_file(contents@),
{
    let mut s = contents;
    match pop_char(&mut s) {
        Some(c) => {
            if c != '\n' {
                crate::text::push_char(&mut s, c);
                assert(s@ == contents@);
            } else {
                let ghost t = s@;
                match pop_char(&mut s) {
                    Some(d) => {
                        if d != '\r' {
                            crate::text::push_char(&mut s, d);
                            assert(s@ == t);
                        }
                    },
                    None => {},
                }
            }
        },
        None => {},
    }
    s
}

} // verus!
