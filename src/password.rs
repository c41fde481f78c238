//! Passwords: the rule for a new password, and the check of a candidate
//! against a stored Argon2 hash.
use vstd::prelude::*;
use crate::text::{decimal, push_decimal};
use argon2::PasswordVerifier;
use vstd::utf8::encode_utf8;

verus! {

/// A new password must hold at least this many bytes...
pub const MIN_PASSWORD_LEN: usize = 12;

/// ...and at most this many.
pub const MAX_PASSWORD_LEN: usize = 128;

pub open spec fn password_length_message(len: nat) -> Seq<char> {
    "Password must be between 12 and 128 characters, got "@ + decimal(len)
}

/// A password that satisfies the length rule.
#[derive(Debug)]
pub struct ValidNewPassword {
    password: String,
}

impl View for ValidNewPassword {
    type V = Seq<char>;

    closed spec fn view(&self) -> Seq<char> {
        self.password@
    }
}

impl ValidNewPassword {
    /// Accepts `s` when its UTF-8 length lies between `MIN_PASSWORD_LEN` and
    /// `MAX_PASSWORD_LEN` bytes.
    pub fn parse(s: &str) -> (r: Result<ValidNewPassword, String>)
        ensures
            r is Ok <==> MIN_PASSWORD_LEN <= encode_utf8(s@).len() <= MAX_PASSWORD_LEN,
            r matches Ok(p) ==> p@ == s@,
            r matches Err(m) ==> m@ == password_length_message(encode_utf8(s@).len()),
    {
        let n = s.as_bytes().len();
        if n < MIN_PASSWORD_LEN || n > MAX_PASSWORD_LEN {
            let mut m = String::from_str("Password must be between 12 and 128 characters, got ");
            push_decimal(&mut m, n);
            return Err(m);
        }
        Ok(ValidNewPassword { password: String::from_str(s) })
    }

    /// The password's UTF-8 bytes.
    pub fn as_bytes(&self) -> (r: &[u8])
        ensures
            r@ == encode_utf8(self@),
    {
        self.password.as_str().as_bytes()
    }
}

/// The message for two different new passwords.
pub open spec fn password_mismatch_message() -> Seq<char> {
    "You entered two different new passwords - the field values must match."@
}

pub open spec fn password_len_ok(s: Seq<char>) -> bool {
    MIN_PASSWORD_LEN <= encode_utf8(s).len() <= MAX_PASSWORD_LEN
}

/// The checks of a password change before the current password is asked
/// for: both new passwords satisfy the length rule, then they are equal.
pub fn validate_new_password(new_password: &str, new_password_check: &str) -> (r: Result<ValidNewPassword, String>)
    ensures
        !password_len_ok(new_password@) ==> (r matches Err(m) && m@ == password_length_message(
            encode_utf8(new_password@).len(),
        )),
        password_len_ok(new_password@) && !password_len_ok(new_password_check@) ==> (r matches Err(m)
            && m@ == password_length_message(encode_utf8(new_password_check@).len())),
        password_len_ok(new_password@) && password_len_ok(new_password_check@) && new_password@
            != new_password_check@ ==> (r matches Err(m) && m@ == password_mismatch_message()),
        password_len_ok(new_password@) && new_password@ == new_password_check@ ==> (r matches Ok(p) && p@
            == new_password@),
{
    let first = match ValidNewPassword::parse(new_password) {
        Ok(p) => p,
        Err(e) => {
            return Err(e);
        },
    };
    let second = match ValidNewPassword::parse(new_password_check) {
        Ok(p) => p,
        Err(e) => {
            return Err(e);
        },
    };
    if first.password != second.password {
        return Err(
            String::from_str("You entered two different new passwords - the field values must match."),
        );
    }
    Ok(first)
}

/// Why a login attempt was refused.
#[derive(Debug, Clone, PartialEq, Eq)]
pub enum AuthError {
    InvalidCredentials(String),
    UnexpectedError(String),
}

/// A username and the password offered for it.
#[derive(Debug)]
pub struct Credentials {
    pub username: String,
    pub password: String,
}

/// Whether `argon2::PasswordHash::new` accepts `phc` as a PHC string.
pub uninterp spec fn phc_parses(phc: Seq<char>) -> bool;

/// Whether Argon2's `verify_password` accepts `password` for the parsed hash
/// `phc`.
pub uninterp spec fn argon2_accepts(phc: Seq<char>, password: Seq<char>) -> bool;

/// How a password check against a PHC string failed.
enum HashCheck {
    Match,
    Mismatch,
    MalformedHash,
}

/// Relies on `argon2::PasswordHash::new` to parse the PHC string and on
/// `PasswordVerifier::verify_password` of `Argon2::default()` to check the
/// candidate against it with the hash's own parameters.
#[verifier::external_body]
fn check_password_hash(phc: &str, candidate: &str) -> (r: HashCheck)
    ensures
        !phc_parses(phc@) ==> r is MalformedHash,
        phc_parses(phc@) ==> (r is Match <==> argon2_accepts(phc@, candidate@)),
        phc_parses(phc@) ==> !(r is MalformedHash),
{
    match argon2::PasswordHash::new(phc) {
        Err(_) => HashCheck::MalformedHash,
        Ok(hash) => match argon2::Argon2::default().verify_password(candidate.as_bytes(), &hash) {
            Ok(()) => HashCheck::Match,
            Err(_) => HashCheck::Mismatch,
        },
    }
}

/// The hash checked when the username is unknown, so that an unknown user
/// costs as much time as a wrong password.
pub open spec fn fallback_phc() -> Seq<char> {
    "$argon2id$v=19$m=15000,t=2,p=1$gZiV/M1gPc22E1AH/Jh1Hw$CW0rkoo7oJBQ/iyh7uJ0L02aLefrHwTWllSAxT0zRno"@
}

/// The PHC string that a login checks: the stored one, or the fallback.
pub open spec fn phc_to_check(stored: Option<(u128, Seq<char>)>) -> Seq<char> {
    match stored {
        Some((_, phc)) => phc,
        None => fallback_phc(),
    }
}

pub open spec fn stored_view(stored: Option<(u128, String)>) -> Option<(u128, Seq<char>)> {
    match stored {
        Some((id, phc)) => Some((id, phc@)),
        None => None,
    }
}

/// Checks `credentials` against the row stored for their username (`None`
/// for an unknown user). The password is checked in every case, against
/// the fallback hash when the user is unknown; success is owed exactly when
/// the user is known and the password matches the stored hash.
pub fn validate_credentials(credentials: &Credentials, stored: Option<(u128, String)>) -> (r: Result<u128, AuthError>)
    ensures
        ({
            let phc = phc_to_check(stored_view(stored));
            &&& !phc_parses(phc) ==> (r matches Err(AuthError::UnexpectedError(_)))
            &&& phc_parses(phc) && !argon2_accepts(phc, credentials.password@) ==> (r matches Err(
                AuthError::InvalidCredentials(_),
            ))
            &&& phc_parses(phc) && argon2_accepts(phc, credentials.password@) ==> match stored {
                Some((id, _)) => r == Ok::<u128, AuthError>(id),
                None => (r matches Err(AuthError::InvalidCredentials(_))),
            }
        }),
{
    let (user_id, phc) = match stored {
        Some((id, phc)) => (Some(id), phc),
        None => (
            None,
            String::from_str(
                "$argon2id$v=19$m=15000,t=2,p=1$gZiV/M1gPc22E1AH/Jh1Hw$CW0rkoo7oJBQ/iyh7uJ0L02aLefrHwTWllSAxT0zRno",
            ),
        ),
    };
    match check_password_hash(phc.as_str(), credentials.password.as_str()) {
        HashCheck::MalformedHash => Err(
            AuthError::UnexpectedError(String::from_str("Failed to parse hash in PHC string format.")),
        ),
        HashCheck::Mismatch => Err(AuthError::InvalidCredentials(String::from_str("Invalid password."))),
        HashCheck::Match => match user_id {
            Some(id) => Ok(id),
            None => Err(AuthError::InvalidCredentials(String::from_str("Unknown username."))),
        },
    }
}

} // verus!
