//! The one error type that crosses every boundary.
use vstd::prelude::*;

verus! {

/// What kind of failure this is.
#[derive(Debug, Clone, Copy, PartialEq, Eq, Structural)]
pub enum ErrorCode {
    /// The user stopped the operation.
    Cancelled,
    /// Something this program will not do.
    Refused,
    /// The request itself makes no sense.
    InvalidInput,
    /// The thing named does not exist.
    NotFound,
    /// This machine lacks what the request needs.
    Unsupported,
    /// A command that was run reported a failure.
    CommandFailed,
    /// The privileged helper could not be reached.
    HelperUnavailable,
    /// The privileged helper declined.
    HelperRejected,
    /// A bug.
    Internal,
}

/// What the machine said about a failure.
#[derive(Debug, PartialEq, Eq)]
pub enum Cause {
    /// A command that was run, its exit status and what it complained of.
    Command { program: String, status: Option<i32>, stderr: String },
    /// Something the operating system said.
    System { description: String },
}

impl Clone for Cause {
    fn clone(&self) -> (r: Self)
        ensures
            r == *self,
    {
        match self {
            Cause::Command { program, status, stderr } => Cause::Command {
                program: program.clone(),
                status: *status,
                stderr: stderr.clone(),
            },
            Cause::System { description } => Cause::System { description: description.clone() },
        }
    }
}

/// A failure, phrased for the person who has to act on it.
#[derive(Debug, PartialEq, Eq)]
pub struct AppError {
    pub code: ErrorCode,
    pub message: String,
    /// What the user can do about it.
    pub remedy: Option<String>,
    /// What the machine said, for a log.
    pub cause: Option<Cause>,
    /// The path that the failure is about.
    pub path: Option<String>,
}

/// The same optional text again.
pub fn copy_option(s: &Option<String>) -> (r: Option<String>)
    ensures
        r == *s,
{
    match s {
        Some(t) => Some(t.clone()),
        None => None,
    }
}

impl Clone for AppError {
    fn clone(&self) -> (r: Self)
        ensures
            r == *self,
    {
        AppError {
            code: self.code,
            message: self.message.clone(),
            remedy: copy_option(&self.remedy),
            cause: match &self.cause {
                Some(c) => Some(c.clone()),
                None => None,
            },
            path: copy_option(&self.path),
        }
    }
}

/// What an operation that can fail returns.
pub type Result<T> = core::result::Result<T, AppError>;

/// A failure with nothing but its code and its message.
pub open spec fn plain_error(e: AppError, code: ErrorCode, message: Seq<char>) -> bool {
    e.code == code && e.message@ == message && e.remedy is None && e.cause is None && e.path is None
}

/// The failure that a cancelled operation reports.
pub open spec fn is_cancelled_error(e: AppError) -> bool {
    plain_error(e, ErrorCode::Cancelled, "Cancelled."@)
}

impl AppError {
    /// A failure with a code and a message.
    pub fn new(code: ErrorCode, message: String) -> (r: Self)
        ensures
            plain_error(r, code, message@),
    {
        AppError { code, message, remedy: None, cause: None, path: None }
    }

    /// The user stopped the operation.
    pub fn cancelled() -> (r: Self)
        ensures
            is_cancelled_error(r),
    {
        AppError::new(ErrorCode::Cancelled, "Cancelled.".to_owned())
    }

    /// A bug in this program.
    pub fn internal(message: &str) -> (r: Self)
        ensures
            plain_error(r, ErrorCode::Internal, message@),
    {
        AppError::new(ErrorCode::Internal, message.to_owned())
    }

    /// Something this program will not do.
    pub fn refused(message: String) -> (r: Self)
        ensures
            plain_error(r, ErrorCode::Refused, message@),
    {
        AppError::new(ErrorCode::Refused, message)
    }

    /// A request that makes no sense.
    pub fn invalid_input(message: &str) -> (r: Self)
        ensures
            plain_error(r, ErrorCode::InvalidInput, message@),
    {
        AppError::new(ErrorCode::InvalidInput, message.to_owned())
    }

    /// The same failure, with what the user can do about it.
    pub fn with_remedy(self, remedy: &str) -> (r: Self)
        ensures
            r.remedy matches Some(t) && t@ == remedy@,
            r == (AppError { remedy: r.remedy, ..self }),
    {
        AppError { remedy: Some(remedy.to_owned()), ..self }
    }

    /// The same failure, with what the machine said.
    pub fn with_cause(self, cause: Cause) -> (r: Self)
        ensures
            r == (AppError { cause: Some(cause), ..self }),
    {
        AppError { cause: Some(cause), ..self }
    }

    /// The same failure, with the path that it is about.
    pub fn with_path(self, path: String) -> (r: Self)
        ensures
            r == (AppError { path: Some(path), ..self }),
    {
        AppError { path: Some(path), ..self }
    }

    /// Whether something went wrong. Stopping on request is not a fault.
    pub fn is_fault(&self) -> (r: bool)
        ensures
            r == (self.code != ErrorCode::Cancelled),
    {
        self.code != ErrorCode::Cancelled
    }
}

/// Each error is of its own kind and says what it was given; only cancellation
/// is no fault.
pub proof fn law_errors_are_of_their_own_kind(
    message: &str,
    owned: String,
    cancelled: AppError,
    internal: AppError,
    refused: AppError,
    invalid: AppError,
    e: AppError,
    fault: bool,
)
    requires
        call_ensures(AppError::cancelled, (), cancelled),
        call_ensures(AppError::internal, (message,), internal),
        call_ensures(AppError::refused, (owned,), refused),
        call_ensures(AppError::invalid_input, (message,), invalid),
        call_ensures(AppError::is_fault, (&e,), fault),
    ensures
        cancelled.code == ErrorCode::Cancelled,
        internal.code == ErrorCode::Internal && internal.message@ == message@,
        refused.code == ErrorCode::Refused && refused.message@ == owned@,
        invalid.code == ErrorCode::InvalidInput && invalid.message@ == message@,
        fault == (e.code != ErrorCode::Cancelled),
{
}

} // verus!
