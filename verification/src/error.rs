//! The errors that the service answers requests with, and the error of the
//! start-up configuration.
use vstd::prelude::*;

verus! {

/// What kind of failure an [`AppError`] reports; it decides the HTTP status.
#[derive(PartialEq, Eq, Structural, Clone, Copy, Debug)]
pub enum ErrorKind {
    BadRequest,
    Unauthorized,
    NotFound,
    Conflict,
    Internal,
    Printer,
}

/// A failed request, with the message shown to the user.
#[derive(Debug)]
pub enum AppError {
    BadRequest(String),
    Unauthorized(String),
    NotFound(String),
    Conflict(String),
    Internal(String),
    Printer(String),
}

impl AppError {
    pub open spec fn kind(&self) -> ErrorKind {
        match self {
            AppError::BadRequest(_) => ErrorKind::BadRequest,
            AppError::Unauthorized(_) => ErrorKind::Unauthorized,
            AppError::NotFound(_) => ErrorKind::NotFound,
            AppError::Conflict(_) => ErrorKind::Conflict,
            AppError::Internal(_) => ErrorKind::Internal,
            AppError::Printer(_) => ErrorKind::Printer,
        }
    }

    pub open spec fn message(&self) -> Seq<char> {
        match self {
            AppError::BadRequest(m) => m@,
            AppError::Unauthorized(m) => m@,
            AppError::NotFound(m) => m@,
            AppError::Conflict(m) => m@,
            AppError::Internal(m) => m@,
            AppError::Printer(m) => m@,
        }
    }

    /// This error is of kind `kind` and says `message`.
    pub open spec fn is(&self, kind: ErrorKind, message: Seq<char>) -> bool {
        self.kind() == kind && self.message() == message
    }

    /// An error of kind `kind` that says `message`.
    pub fn new(kind: ErrorKind, message: &str) -> (e: AppError)
        ensures
            e.is(kind, message@),
    {
        let text = crate::text::owned(message);
        match kind {
            ErrorKind::BadRequest => AppError::BadRequest(text),
            ErrorKind::Unauthorized => AppError::Unauthorized(text),
            ErrorKind::NotFound => AppError::NotFound(text),
            ErrorKind::Conflict => AppError::Conflict(text),
            ErrorKind::Internal => AppError::Internal(text),
            ErrorKind::Printer => AppError::Printer(text),
        }
    }

    pub fn get_kind(&self) -> (k: ErrorKind)
        ensures
            k == self.kind(),
    {
        match self {
            AppError::BadRequest(_) => ErrorKind::BadRequest,
            AppError::Unauthorized(_) => ErrorKind::Unauthorized,
            AppError::NotFound(_) => ErrorKind::NotFound,
            AppError::Conflict(_) => ErrorKind::Conflict,
            AppError::Internal(_) => ErrorKind::Internal,
            AppError::Printer(_) => ErrorKind::Printer,
        }
    }

    pub fn get_message(&self) -> (m: &String)
        ensures
            m@ == self.message(),
    {
        match self {
            AppError::BadRequest(m) => m,
            AppError::Unauthorized(m) => m,
            AppError::NotFound(m) => m,
            AppError::Conflict(m) => m,
            AppError::Internal(m) => m,
            AppError::Printer(m) => m,
        }
    }
}

/// A start-up configuration that cannot be used (an invalid input).
#[derive(Debug)]
pub struct ConfigError {
    pub message: String,
}

} // verus!

verus! {

/// `r` failed with an error of kind `kind` that says `message`.
pub open spec fn fails<T>(r: Result<T, AppError>, kind: ErrorKind, message: Seq<char>) -> bool {
    match r {
        Err(e) => e.is(kind, message),
        Ok(_) => false,
    }
}

} // verus!
