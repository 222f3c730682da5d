//! Registering users and checking their passwords.
//!
//! Passwords are hashed and checked with Argon2, and names are held to a
//! pattern with a regular expression; both are the work of outside crates.
//! What is asked of a new user, and what follows from a check, is decided
//! here.

use vstd::prelude::*;
use crate::models::local as lm;
use crate::store::models as dbm;

verus! {

/// What a user name has to look like: digits, letters and underscores, and
/// at least one of them.
pub const USERNAME_PATTERN: &'static str = "^[\\d\\w_]+$";

/// Why a user could not be registered or logged in.
#[derive(Clone, Copy, Debug, PartialEq, Eq, Structural)]
pub enum UserError {
    /// The password is empty.
    BlankPassword,
    /// The name does not fit the pattern for user names.
    InvalidName,
    /// The password could not be hashed.
    Hashing,
    /// The stored hash of the user's password cannot be read.
    StoredHash,
}

impl UserError {
    /// The failure in words.
    pub fn message(&self) -> (text: String)
        ensures
            text@ == match self {
                UserError::BlankPassword => "Password can not be blank"@,
                UserError::InvalidName => "Username can only contain alphanumeric characters and underscores"@,
                UserError::Hashing => "Password could not be hashed"@,
                UserError::StoredHash => "Stored password hash is invalid"@,
            },
    {
        match self {
            UserError::BlankPassword => String::from_str("Password can not be blank"),
            UserError::InvalidName => String::from_str(
                "Username can only contain alphanumeric characters and underscores",
            ),
            UserError::Hashing => String::from_str("Password could not be hashed"),
            UserError::StoredHash => String::from_str("Stored password hash is invalid"),
        }
    }
}

/// Whether the regular expression `pattern` matches somewhere in `text`;
/// `None` where `pattern` is no regular expression.
pub uninterp spec fn regex_match(pattern: Seq<char>, text: Seq<char>) -> Option<bool>;

/// Whether `password` is the password that the PHC string `encoded` was
/// made of; `None` where `encoded` is no PHC string.
pub uninterp spec fn argon2_check(password: Seq<char>, encoded: Seq<char>) -> Option<bool>;

/// `regex::Regex::new` followed by `Regex::is_match`: compiles `pattern`
/// and says whether it matches anywhere in `text`. The answer depends on
/// the two texts alone.
#[verifier::external_body]
fn pattern_matches(pattern: &str, text: &str) -> (r: Option<bool>)
    ensures
        r == regex_match(pattern@, text@),
{
    match regex::Regex::new(pattern) {
        Ok(re) => Some(re.is_match(text)),
        Err(_) => None,
    }
}

/// `argon2::PasswordHash::new` followed by `PasswordVerifier::verify_password`
/// on `Argon2::default()`: reads `encoded` as a PHC string, hashes
/// `password` with the parameters and the salt found there, and compares.
/// The answer depends on the two texts alone.
#[verifier::external_body]
fn verify_password(password: &str, encoded: &str) -> (r: Option<bool>)
    ensures
        r == argon2_check(password@, encoded@),
{
    match argon2::PasswordHash::new(encoded) {
        Ok(hash) => Some(
            argon2::PasswordVerifier::verify_password(&argon2::Argon2::default(), password.as_bytes(), &hash).is_ok(),
        ),
        Err(_) => None,
    }
}

/// `argon2::password_hash::SaltString::generate` with the system's random
/// numbers, then `PasswordHasher::hash_password` on `Argon2::default()`:
/// the PHC string of `password` under a fresh salt, or `None` where hashing
/// fails. The salt is random, so nothing is said of the string.
#[verifier::external_body]
fn hash_password(password: &str) -> (r: Option<String>) {
    let salt = argon2::password_hash::SaltString::generate(&mut argon2::password_hash::rand_core::OsRng);
    match argon2::PasswordHasher::hash_password(&argon2::Argon2::default(), password.as_bytes(), &salt) {
        Ok(hash) => Some(hash.to_string()),
        Err(_) => None,
    }
}

/// Whether a name fits the pattern for user names.
pub open spec fn name_is_valid(name: Seq<char>) -> bool {
    regex_match(USERNAME_PATTERN@, name) == Some(true)
}

/// What is asked of a new user, given whether the password is empty and
/// what the pattern for user names says of the name: the password is looked
/// at first.
pub open spec fn new_user_check(password_blank: bool, name_matches: Option<bool>) -> Result<(), UserError> {
    if password_blank {
        Err(UserError::BlankPassword)
    } else if name_matches != Some(true) {
        Err(UserError::InvalidName)
    } else {
        Ok(())
    }
}

/// Whether a name fits the pattern for user names.
pub fn is_valid_username(name: &str) -> (r: bool)
    ensures
        r == name_is_valid(name@),
{
    match pattern_matches(USERNAME_PATTERN, name) {
        Some(true) => true,
        _ => false,
    }
}

/// What is asked of a new user, given whether the password is empty and
/// what the pattern for user names says of the name.
pub fn check_new_user(password_blank: bool, name_matches: Option<bool>) -> (r: Result<(), UserError>)
    ensures
        r == new_user_check(password_blank, name_matches),
{
    if password_blank {
        return Err(UserError::BlankPassword);
    }
    match name_matches {
        Some(true) => Ok(()),
        _ => Err(UserError::InvalidName),
    }
}

/// Whether a user with this name and password may be registered.
pub fn validate_new_user(user: &lm::NewUser) -> (r: Result<(), UserError>)
    ensures
        r == new_user_check(user.password@.len() == 0, regex_match(USERNAME_PATTERN@, user.name@)),
{
    let blank = user.password.as_str().unicode_len() == 0;
    if blank {
        check_new_user(true, None)
    } else {
        check_new_user(false, pattern_matches(USERNAME_PATTERN, user.name.as_str()))
    }
}

/// The row to store for a new user, given the hash of the password, or
/// `None` where hashing failed.
pub fn new_user_record(name: String, password_hash: Option<String>) -> (r: Result<dbm::NewUser, UserError>)
    ensures
        r is Ok == password_hash is Some,
        r matches Ok(row) ==> row.name == Some(name) && row.password_hash == password_hash,
        r matches Err(e) ==> e == UserError::Hashing,
{
    match password_hash {
        Some(hash) => Ok(dbm::NewUser { name: Some(name), password_hash: Some(hash) }),
        None => Err(UserError::Hashing),
    }
}

/// The row to store for a new user: the name, and the password hashed
/// under a fresh salt. A user with an empty password or an invalid name is
/// refused before anything is hashed.
pub fn create_user(user: lm::NewUser) -> (r: Result<dbm::NewUser, UserError>)
    ensures
        new_user_check(user.password@.len() == 0, regex_match(USERNAME_PATTERN@, user.name@)) matches Err(e)
            ==> r is Err && r.unwrap_err() == e,
        new_user_check(user.password@.len() == 0, regex_match(USERNAME_PATTERN@, user.name@)) is Ok ==> match r {
            Ok(row) => row.name == Some(user.name) && row.password_hash is Some,
            Err(e) => e == UserError::Hashing,
        },
{
    match validate_new_user(&user) {
        Err(e) => Err(e),
        Ok(()) => {
            let hash = hash_password(user.password.as_str());
            new_user_record(user.name, hash)
        },
    }
}

/// What a login comes to, given the user with the name that was entered,
/// if there is one, and what the check of the password said: the user where
/// the password is right, nobody where it is wrong or the name is unknown,
/// and an error where the stored hash cannot be read.
pub fn login_outcome(user: Option<dbm::User>, verdict: Option<bool>) -> (r: Result<Option<lm::User>, UserError>)
    ensures
        match user {
            None => r is Ok && r.unwrap() is None,
            Some(u) => match verdict {
                None => r is Err && r.unwrap_err() == UserError::StoredHash,
                Some(false) => r is Ok && r.unwrap() is None,
                Some(true) => r is Ok && r.unwrap() is Some && logged_in(r.unwrap().unwrap(), u),
            },
        },
{
    match user {
        None => Ok(None),
        Some(u) => match verdict {
            None => Err(UserError::StoredHash),
            Some(false) => Ok(None),
            Some(true) => Ok(Some(lm::User::from(u))),
        },
    }
}

/// Whether `user` is the one that the row `row` stands for.
pub open spec fn logged_in(user: lm::User, row: dbm::User) -> bool {
    &&& user.id == row.id
    &&& user.created_at == row.created_at
    &&& user.updated_at == row.updated_at
    &&& user.name == row.name
}

/// Logs a user in: `user` is the row with the name that was entered, if
/// there is one, and `password` what was entered as the password.
pub fn login(user: Option<dbm::User>, password: &str) -> (r: Result<Option<lm::User>, UserError>)
    ensures
        match user {
            None => r is Ok && r.unwrap() is None,
            Some(u) => match argon2_check(password@, u.password_hash@) {
                None => r is Err && r.unwrap_err() == UserError::StoredHash,
                Some(false) => r is Ok && r.unwrap() is None,
                Some(true) => r is Ok && r.unwrap() is Some && logged_in(r.unwrap().unwrap(), u),
            },
        },
{
    match user {
        None => login_outcome(None, None),
        Some(u) => {
            let verdict = verify_password(password, u.password_hash.as_str());
            login_outcome(Some(u), verdict)
        },
    }
}

} // verus!
