//! The errors that the core reports to its callers.

use vstd::prelude::*;
use vstd::string::StringExecFns;

verus! {

/// What went wrong, by kind.
#[derive(Clone, Copy, Debug, PartialEq, Eq, Structural)]
pub enum ErrorKind {
    /// A file, preview or path is missing.
    NotFound,
    /// A rating is out of range, or a path is malformed.
    InvalidInput,
    /// The operation needs configuration that is not there yet.
    Conflict,
    /// The operating system refused.
    PermissionDenied,
    /// The store or a worker failed.
    Internal,
}

impl ErrorKind {
    /// The HTTP status that a transport layer answers with.
    pub open spec fn status(self) -> u16 {
        match self {
            ErrorKind::NotFound => 404,
            ErrorKind::InvalidInput => 400,
            ErrorKind::Conflict => 409,
            ErrorKind::PermissionDenied => 403,
            ErrorKind::Internal => 500,
        }
    }

    /// The HTTP status of the kind.
    pub fn status_code(self) -> (code: u16)
        ensures
            code == self.status(),
    {
        match self {
            ErrorKind::NotFound => 404,
            ErrorKind::InvalidInput => 400,
            ErrorKind::Conflict => 409,
            ErrorKind::PermissionDenied => 403,
            ErrorKind::Internal => 500,
        }
    }
}

/// An error with the message shown to the caller.
#[derive(Clone, Debug, PartialEq, Eq)]
pub struct ApiError {
    pub kind: ErrorKind,
    pub message: String,
}

impl ApiError {
    /// An error of the given kind with the given message.
    pub fn new(kind: ErrorKind, message: &str) -> (e: ApiError)
        ensures
            e.kind == kind,
            e.message@ == message@,
    {
        ApiError { kind, message: String::from_str(message) }
    }
}

/// The message of an internal error with the given detail.
pub open spec fn internal_message(detail: Seq<char>) -> Seq<char> {
    "Internal error: "@ + detail
}

/// The error for a failure of the store or of a worker.
pub fn internal_error(detail: &str) -> (e: ApiError)
    ensures
        e.kind == ErrorKind::Internal,
        e.message@ == internal_message(detail@),
{
    ApiError { kind: ErrorKind::Internal, message: String::from_str("Internal error: ").concat(detail) }
}

/// The message of a failed filesystem operation.
pub open spec fn fs_message(permission_denied: bool, message: Seq<char>, detail: Seq<char>) -> Seq<
    char,
> {
    if permission_denied {
        message + ": permission denied"@
    } else {
        message + ": "@ + detail
    }
}

/// The error for a failed filesystem operation: a refusal by the operating
/// system is `PermissionDenied`; anything else is `InvalidInput` and carries
/// the system's own description.
pub fn map_fs_error(permission_denied: bool, message: &str, detail: &str) -> (e: ApiError)
    ensures
        e.kind == if permission_denied {
            ErrorKind::PermissionDenied
        } else {
            ErrorKind::InvalidInput
        },
        e.message@ == fs_message(permission_denied, message@, detail@),
{
    if permission_denied {
        ApiError {
            kind: ErrorKind::PermissionDenied,
            message: String::from_str(message).concat(": permission denied"),
        }
    } else {
        ApiError {
            kind: ErrorKind::InvalidInput,
            message: String::from_str(message).concat(": ").concat(detail),
        }
    }
}

} // verus!
