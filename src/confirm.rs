//! Confirmation of a pending subscription.
use vstd::prelude::*;

verus! {

/// The query of a confirmation link.
#[derive(Debug, Clone)]
pub struct Parameters {
    pub subscription_token: String,
}

/// Why a confirmation failed.
#[derive(Debug, Clone, PartialEq, Eq)]
pub enum ConfirmError {
    /// No pending subscription holds the token.
    InvalidToken,
    UnexpectedError(String),
}

impl ConfirmError {
    /// 401 for an unknown token, 500 otherwise.
    pub fn status_code(&self) -> (r: u16)
        ensures
            r == match self {
                ConfirmError::InvalidToken => 401u16,
                ConfirmError::UnexpectedError(_) => 500u16,
            },
    {
        match self {
            ConfirmError::InvalidToken => 401,
            ConfirmError::UnexpectedError(_) => 500,
        }
    }

    /// The message shown for the error.
    pub fn message(&self) -> (r: String)
        ensures
            match self {
                ConfirmError::InvalidToken => r@ == "Invalid token"@,
                ConfirmError::UnexpectedError(m) => r@ == m@,
            },
    {
        match self {
            ConfirmError::InvalidToken => String::from_str("Invalid token"),
            ConfirmError::UnexpectedError(m) => m.clone(),
        }
    }
}

/// What a confirmation request yields once the token has been looked up:
/// the subscriber to confirm, or the error for an unknown token.
pub fn confirmation_target(subscriber_id: Option<u128>) -> (r: Result<u128, ConfirmError>)
    ensures
        match subscriber_id {
            Some(id) => r == Ok::<u128, ConfirmError>(id),
            None => r == Err::<u128, ConfirmError>(ConfirmError::InvalidToken),
        },
{
    match subscriber_id {
        Some(id) => Ok(id),
        None => Err(ConfirmError::InvalidToken),
    }
}

} // verus!
