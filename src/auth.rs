use vstd::prelude::*;
use crate::errors::AppError;

verus! {

/// How long a session lasts, in seconds.
pub const SESSION_SECONDS: usize = 3600;

/// What a session token carries: who logged in, and the instant (seconds since
/// the Unix epoch) after which the token is refused.
pub struct Claims {
    pub client_id: String,
    pub exp: usize,
}

/// The failure, if any, of a login with the given credentials against the
/// configured ones at instant `now`.
pub open spec fn login_error(
    client_id: Seq<char>,
    client_secret: Seq<char>,
    expected_id: Seq<char>,
    expected_secret: Seq<char>,
    now: usize,
) -> Option<AppError> {
    if client_id.len() == 0 || client_secret.len() == 0 {
        Some(AppError::MissingCredentials)
    } else if client_id != expected_id || client_secret != expected_secret {
        Some(AppError::WrongCredentials)
    } else if now > usize::MAX - SESSION_SECONDS {
        Some(AppError::InternalServer)
    } else {
        None
    }
}

/// Checks a login: an empty credential is `MissingCredentials`, a credential
/// that differs from the configured one is `WrongCredentials`. On success the
/// claims name the client and expire one session after `now`.
pub fn check_login(
    client_id: String,
    client_secret: &String,
    expected_id: &String,
    expected_secret: &String,
    now: usize,
) -> (r: Result<Claims, AppError>)
    ensures
        r is Err <==> login_error(client_id@, client_secret@, expected_id@, expected_secret@, now) is Some,
        r matches Err(e) ==> login_error(client_id@, client_secret@, expected_id@, expected_secret@, now) == Some(e),
        r matches Ok(c) ==> c.client_id == client_id && c.exp == now + SESSION_SECONDS,
{
    if client_id.as_str().is_empty() || client_secret.as_str().is_empty() {
        return Err(AppError::MissingCredentials);
    }
    if client_id != *expected_id || *client_secret != *expected_secret {
        return Err(AppError::WrongCredentials);
    }
    if now > usize::MAX - SESSION_SECONDS {
        return Err(AppError::InternalServer);
    }
    Ok(Claims { client_id, exp: now + SESSION_SECONDS })
}

impl Claims {
    /// Accepts the claims of a decoded token at instant `now`: `InvalidToken`
    /// once `now` is past their expiry, else the claims themselves.
    pub fn validate(self, now: usize) -> (r: Result<Claims, AppError>)
        ensures
            now > self.exp ==> r == Err::<Claims, AppError>(AppError::InvalidToken),
            now <= self.exp ==> r == Ok::<Claims, AppError>(self),
    {
        if now > self.exp {
            Err(AppError::InvalidToken)
        } else {
            Ok(self)
        }
    }
}

} // verus!
