//! The calls into `getrandom` and `argon2` that authentication makes. Each
//! item here is trusted: its contract is what the crate's source shows, and
//! nothing in this crate proves it.
use vstd::prelude::*;
use argon2::password_hash::{Error as HashError, Salt, SaltString};
use argon2::{Argon2, PasswordHash, PasswordHasher, PasswordVerifier};

verus! {

/// `getrandom::Error`, the failure of the operating system's random source.
#[verifier::external_type_specification]
#[verifier::external_body]
pub struct ExRandomError(getrandom::Error);

/// `password_hash::Error`, a failure to parse or compute a password hash.
#[verifier::external_type_specification]
#[verifier::external_body]
pub struct ExHashError(HashError);

/// The B64 text that `SaltString::encode_b64` makes of `bytes`.
pub uninterp spec fn salt_b64(bytes: Seq<u8>) -> Seq<char>;

/// The PHC string that `Argon2::default().hash_password` gives for the UTF-8
/// bytes of `password` under the B64 salt `salt`.
pub uninterp spec fn argon2_phc(password: Seq<char>, salt: Seq<char>) -> Seq<char>;

/// Whether `PasswordHash::new` accepts `s` as a PHC string.
pub uninterp spec fn phc_parses(s: Seq<char>) -> bool;

/// Whether `s` parses as a PHC string and `Argon2::default().verify_password`
/// accepts the UTF-8 bytes of `password` against it.
pub uninterp spec fn password_matches_phc(password: Seq<char>, phc: Seq<char>) -> bool;

/// `getrandom::fill`: overwrites `dest` with bytes from the operating system's
/// random source. Claims only that the length is unchanged; what the bytes
/// are, and whether the call fails, is up to the operating system.
#[verifier::external_body]
pub(crate) fn fill_random(dest: &mut Vec<u8>) -> (r: Result<(), getrandom::Error>)
    ensures
        final(dest)@.len() == old(dest)@.len(),
{
    getrandom::fill(dest.as_mut_slice())
}

/// The `Display` text of a `getrandom::Error`. Nothing is claimed of it.
#[verifier::external_body]
pub(crate) fn random_error_text(error: &getrandom::Error) -> String {
    format!("{error}")
}

/// The `Display` text of a `password_hash::Error`. Nothing is claimed of it.
#[verifier::external_body]
pub(crate) fn hash_error_text(error: &HashError) -> String {
    format!("{error}")
}

/// `SaltString::encode_b64`: the B64 text of `bytes` as a salt. Which text
/// that is is not stated beyond its name. The text is written into a buffer
/// of 64 characters, so the encoding succeeds for at most 48 bytes.
#[verifier::external_body]
pub(crate) fn encode_salt(bytes: &Vec<u8>) -> (r: Result<String, HashError>)
    ensures
        r matches Ok(s) ==> s@ == salt_b64(bytes@),
        bytes@.len() <= 48 ==> r is Ok,
{
    match SaltString::encode_b64(bytes.as_slice()) {
        Ok(salt) => Ok(salt.as_str().to_string()),
        Err(error) => Err(error),
    }
}

/// `PasswordHash::new`: succeeds exactly when `s` parses as a PHC string; it
/// fails on the empty string.
#[verifier::external_body]
pub(crate) fn check_phc(s: &str) -> (r: Result<(), HashError>)
    ensures
        r is Ok == phc_parses(s@),
        s@.len() == 0 ==> r is Err,
{
    match PasswordHash::new(s) {
        Ok(_) => Ok(()),
        Err(error) => Err(error),
    }
}

/// `Argon2::default().hash_password` with the B64 salt `salt` (taken as a
/// `Salt`, as the hasher takes a `SaltString`), written as a PHC string.
/// Claims that the string is the one named for the password and the salt, and
/// that it verifies `password`: verification recomputes the hash from the
/// parameters and salt written in the string and compares the outputs. Which
/// characters it holds is not stated beyond its name. With the default
/// parameters the hash fails only for a salt text that `Salt::from_b64`
/// refuses, a decoded salt under 8 bytes, or a password over `u32::MAX`
/// bytes; so the B64 text of 8 to 48 bytes, with such a password, succeeds.
#[verifier::external_body]
pub(crate) fn argon2_hash(password: &str, salt: &str) -> (r: Result<String, HashError>)
    ensures
        r matches Ok(h) ==> h@ == argon2_phc(password@, salt@) && phc_parses(h@)
            && password_matches_phc(password@, h@),
        (exists|b: Seq<u8>| 8 <= b.len() <= 48 && salt@ == #[trigger] salt_b64(b))
            && vstd::utf8::encode_utf8(password@).len() <= u32::MAX ==> r is Ok,
{
    let salt = match Salt::from_b64(salt) {
        Ok(salt) => salt,
        Err(error) => return Err(error),
    };
    match Argon2::default().hash_password(password.as_bytes(), salt) {
        Ok(hash) => Ok(hash.to_string()),
        Err(error) => Err(error),
    }
}

/// `PasswordHash::new` on `phc` followed by `Argon2::default().verify_password`
/// with the bytes of `password`: true exactly when both succeed.
#[verifier::external_body]
pub(crate) fn argon2_verify(password: &str, phc: &str) -> (r: bool)
    ensures
        r == password_matches_phc(password@, phc@),
        r ==> phc_parses(phc@),
{
    match PasswordHash::new(phc) {
        Ok(hash) => Argon2::default().verify_password(password.as_bytes(), &hash).is_ok(),
        Err(_) => false,
    }
}

} // verus!
