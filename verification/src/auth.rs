//! Password hashing with Argon2.
//!
//! A hash is a PHC string: it names the algorithm, its cost and the salt, so a
//! password is checked against the string alone.

use vstd::prelude::*;
use argon2::password_hash::{PasswordHash, PasswordHasher, PasswordVerifier, Salt};
use argon2::Argon2;

verus! {

/// The hash of `password` under `salt`, where it can be computed.
pub uninterp spec fn hashed(password: Seq<char>, salt: Seq<char>) -> Option<Seq<char>>;

/// Whether `password` is the password that `hash` was computed from. No
/// password matches text that is not a hash.
pub uninterp spec fn password_matches(password: Seq<char>, hash: Seq<char>) -> bool;

/// `PasswordHasher::hash_password` of the crate `argon2`, with its default
/// parameters, on a salt parsed by `Salt::from_b64`: the hash of `password` as
/// a PHC string, or nothing where the salt is not one or the crate fails. The
/// result is a function of the two arguments, named [`hashed`]. Claimed beside
/// it: the password matches its own hash, since checking recomputes the hash
/// from the salt and the cost that the string carries.
#[verifier::external_body]
pub(crate) fn hash_password(password: &str, salt: &str) -> (hash: Option<String>)
    ensures
        match hash {
            Some(h) => hashed(password@, salt@) == Some(h@) && password_matches(password@, h@),
            None => hashed(password@, salt@) is None,
        },
{
    let salt = match Salt::from_b64(salt) {
        Ok(salt) => salt,
        Err(_) => return None,
    };
    match Argon2::default().hash_password(password.as_bytes(), salt) {
        Ok(hash) => Some(hash.to_string()),
        Err(_) => None,
    }
}

/// `PasswordVerifier::verify_password` of the crate `argon2` on a hash parsed
/// by `PasswordHash::new`: whether `password` gives the hash in `hash`. Text
/// that does not parse as a hash matches nothing. The result is a function of
/// the two arguments, named [`password_matches`].
#[verifier::external_body]
pub(crate) fn verify_password(password: &str, hash: &str) -> (ok: bool)
    ensures
        ok == password_matches(password@, hash@),
{
    match PasswordHash::new(hash) {
        Ok(parsed) => Argon2::default().verify_password(password.as_bytes(), &parsed).is_ok(),
        Err(_) => false,
    }
}

} // verus!
