use vstd::prelude::*;

verus! {

/// The failures that the engine reports to its callers.
#[derive(Debug, Clone, Copy, PartialEq, Eq, Structural)]
pub enum AppError {
    /// A malformed or missing field, an id mismatch or a forbidden change.
    BadRequest,
    /// No row matches a required single-row lookup.
    NotFound,
    /// The session token is missing, malformed or expired.
    InvalidToken,
    /// The supplied credentials do not match the configured ones.
    WrongCredentials,
    /// The store failed or could not allocate a new row.
    InternalServer,
    /// The login request left a credential empty.
    MissingCredentials,
}

/// The transport status that each failure maps to.
pub open spec fn status_of(e: AppError) -> u16 {
    match e {
        AppError::BadRequest => 400,
        AppError::InvalidToken => 400,
        AppError::MissingCredentials => 400,
        AppError::WrongCredentials => 401,
        AppError::NotFound => 404,
        AppError::InternalServer => 500,
    }
}

impl AppError {
    /// The HTTP status code of this failure.
    pub fn status_code(&self) -> (r: u16)
        ensures
            r == status_of(*self),
    {
        match self {
            AppError::BadRequest => 400,
            AppError::InvalidToken => 400,
            AppError::MissingCredentials => 400,
            AppError::WrongCredentials => 401,
            AppError::NotFound => 404,
            AppError::InternalServer => 500,
        }
    }

    /// The human-readable message of this failure.
    pub fn message(&self) -> (r: &'static str)
        ensures
            *self == AppError::BadRequest ==> r@ == "Bad request"@,
            *self == AppError::InvalidToken ==> r@ == "Invalid token"@,
            *self == AppError::MissingCredentials ==> r@ == "Missing credentials"@,
            *self == AppError::WrongCredentials ==> r@ == "Wrong credentials"@,
            *self == AppError::NotFound ==> r@ == "Resource not found"@,
            *self == AppError::InternalServer ==> r@ == "Internal server error"@,
    {
        match self {
            AppError::BadRequest => "Bad request",
            AppError::InvalidToken => "Invalid token",
            AppError::MissingCredentials => "Missing credentials",
            AppError::WrongCredentials => "Wrong credentials",
            AppError::NotFound => "Resource not found",
            AppError::InternalServer => "Internal server error",
        }
    }
}

} // verus!
