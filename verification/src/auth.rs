//! Admin authentication: the scrypt password check behind `POST /token`,
//! the bearer token it issues, and the permission check every other admin
//! endpoint runs first.
//!
//! The token itself is a process-wide 64-bit value held by the embedding
//! binary; zero means "no token", and a comparison against zero always
//! fails.

use vstd::prelude::*;

use crate::error::QpacktError;
use crate::rng::random_u64_in;
use crate::text::all_digits;
use crate::text::dec_rep;
use crate::text::dec_value;
use crate::text::find_char;
use crate::text::first_index;
use crate::text::format_u64;
use crate::text::lemma_first_index_is;
use crate::text::lemma_first_index_none;
use crate::text::parse_u64;
use scrypt::password_hash::PasswordHash;
use scrypt::password_hash::PasswordHasher;
use scrypt::password_hash::PasswordVerifier;
use scrypt::password_hash::SaltString;

verus! {

/// Whether scrypt verification accepts the password against the stored
/// PHC string: a pure function of the two, recomputed from the salt and
/// parameters the string itself carries.
pub uninterp spec fn scrypt_verify(password: Seq<char>, phc: Seq<char>) -> bool;

/// Whether the text parses as a PHC password-hash string.
pub uninterp spec fn phc_parses(phc: Seq<char>) -> bool;

/// Relies on `scrypt::Scrypt` as a `PasswordHasher`: hashing with a fresh
/// random salt yields a PHC string, and the paired `PasswordVerifier`
/// recomputes the same derivation from that string's own salt and
/// parameters, so the string verifies against the password it was made
/// from.
#[verifier::external_body]
pub fn hash_password(password: String) -> (r: Result<String, QpacktError>)
    ensures
        r matches Ok(h) ==> phc_parses(h@) && scrypt_verify(password@, h@),
        r matches Err(e) ==> e is UnableToHashPassword,
{
    let salt = SaltString::generate(&mut scrypt::password_hash::rand_core::OsRng);
    match scrypt::Scrypt.hash_password(password.as_bytes(), &salt) {
        Ok(h) => Ok(h.to_string()),
        Err(e) => Err(QpacktError::UnableToHashPassword(format!("{}", e))),
    }
}

/// Relies on `scrypt::password_hash::PasswordHash::new` to parse the
/// stored PHC string and on `scrypt::Scrypt` as a `PasswordVerifier`:
/// whether the password verifies is a function of the password and the
/// stored string alone.
#[verifier::external_body]
pub fn password_matches(password: String, hash: &str) -> (r: Result<bool, QpacktError>)
    ensures
        match r {
            Ok(b) => phc_parses(hash@) && b == scrypt_verify(password@, hash@),
            Err(e) => !phc_parses(hash@) && e is UnableToHashPassword,
        },
{
    let parsed = match PasswordHash::new(hash) {
        Ok(p) => p,
        Err(e) => {
            return Err(QpacktError::UnableToHashPassword(format!("{}", e)));
        },
    };
    Ok(scrypt::Scrypt.verify_password(password.as_bytes(), &parsed).is_ok())
}

/// Draws a fresh admin token: its decimal spelling for the client, and
/// the raw value for the process-wide store. The value is never zero,
/// since the stored value zero means "no token" and would never
/// validate.
pub fn create_token() -> (r: (String, u64))
    ensures
        r.1 >= 1,
        r.0@ == dec_rep(r.1 as nat),
{
    let v = random_u64_in(1, u64::MAX);
    (format_u64(v), v)
}

/// Whether a presented token reads as the current token value. The stored
/// value zero means "no token": nothing compares valid against it.
pub fn is_token_valid(token: &str, current: u64) -> (r: bool)
    ensures
        r <==> current != 0 && token@.len() >= 1 && all_digits(token@) && dec_value(token@)
            == current,
{
    match parse_u64(token) {
        Some(v) => current != 0 && v == current,
        None => false,
    }
}

/// The header is present and the part after its first space reads as the
/// current token.
pub open spec fn header_authorizes(auth_header: Option<&str>, current: u64) -> bool {
    auth_header matches Some(h) && (first_index(h@, ' ') matches Some(i) && {
        let token = h@.skip(i + 1);
        &&& current != 0
        &&& token.len() >= 1
        &&& all_digits(token)
        &&& dec_value(token) == current
    })
}

/// Checks an `Authorization` header against the current token: the part
/// after the first space must read as the token, and a missing header,
/// a header without a space, or a stale token all fail with `Forbidden`.
pub fn validate_permission(auth_header: Option<&str>, current: u64) -> (r: Result<
    (),
    QpacktError,
>)
    ensures
        match r {
            Ok(()) => header_authorizes(auth_header, current),
            Err(e) => e is Forbidden && !header_authorizes(auth_header, current),
        },
{
    let header = match auth_header {
        Some(h) => h,
        None => {
            return Err(QpacktError::Forbidden);
        },
    };
    match find_char(header, ' ') {
        Some(i) => {
            proof {
                lemma_first_index_is(header@, ' ', i as int);
            }
            let len = header.unicode_len();
            let token = header.substring_char(i + 1, len);
            proof {
                assert(token@ =~= header@.skip(i + 1));
            }
            if is_token_valid(token, current) {
                Ok(())
            } else {
                Err(QpacktError::Forbidden)
            }
        },
        None => {
            proof {
                lemma_first_index_none(header@, ' ');
            }
            Err(QpacktError::Forbidden)
        },
    }
}

} // verus!
