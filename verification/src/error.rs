//! Errors as the Python layer raises them: an exception class and a message.

use vstd::prelude::*;

verus! {

broadcast use vstd::string::group_string_axioms;

/// The Python exception class that a failure is raised as.
#[derive(Clone, Copy, Debug, PartialEq, Eq, Structural)]
pub enum ExceptionKind {
    ValueError,
    TimeoutError,
    PermissionError,
    OSError,
    RuntimeError,
}

/// A failure to report to Python: the exception class and its message.
#[derive(Clone, Debug)]
pub struct Failure {
    pub kind: ExceptionKind,
    pub message: String,
}

impl Failure {
    pub fn new(kind: ExceptionKind, message: String) -> (r: Failure)
        ensures
            r.kind == kind,
            r.message@ == message@,
    {
        Failure { kind, message }
    }

    /// Whether this failure is of the given kind and carries exactly the given message.
    pub open spec fn is(self, kind: ExceptionKind, message: Seq<char>) -> bool {
        self.kind == kind && self.message@ == message
    }
}

/// Builds a failure from a message literal.
pub fn failure_from_str(kind: ExceptionKind, message: &str) -> (r: Failure)
    ensures
        r.is(kind, message@),
{
    Failure { kind, message: message.to_string() }
}

/// The kinds of servo-fetch errors that the Python layer tells apart.
#[derive(Clone, Copy, Debug, PartialEq, Eq, Structural)]
pub enum FetchErrorKind {
    /// The URL could not be parsed or is not fetchable.
    InvalidUrl,
    /// The page did not load in time.
    Timeout,
    /// The network policy forbids the address.
    AddressNotAllowed,
    /// An I/O error.
    Io,
    /// Any other servo-fetch error.
    Other,
}

/// The exception class a servo-fetch error is raised as.
pub open spec fn exception_for(kind: FetchErrorKind) -> ExceptionKind {
    match kind {
        FetchErrorKind::InvalidUrl => ExceptionKind::ValueError,
        FetchErrorKind::Timeout => ExceptionKind::TimeoutError,
        FetchErrorKind::AddressNotAllowed => ExceptionKind::PermissionError,
        FetchErrorKind::Io => ExceptionKind::OSError,
        FetchErrorKind::Other => ExceptionKind::RuntimeError,
    }
}

/// Turns a servo-fetch error, given by its kind and its message, into the failure raised
/// in Python: invalid URLs are `ValueError`, timeouts `TimeoutError`, forbidden addresses
/// `PermissionError`, I/O errors `OSError`, anything else `RuntimeError`; the message is
/// kept as it is.
pub fn map_error(kind: FetchErrorKind, message: String) -> (r: Failure)
    ensures
        r.kind == exception_for(kind),
        r.message@ == message@,
{
    let exception = match kind {
        FetchErrorKind::InvalidUrl => ExceptionKind::ValueError,
        FetchErrorKind::Timeout => ExceptionKind::TimeoutError,
        FetchErrorKind::AddressNotAllowed => ExceptionKind::PermissionError,
        FetchErrorKind::Io => ExceptionKind::OSError,
        FetchErrorKind::Other => ExceptionKind::RuntimeError,
    };
    Failure::new(exception, message)
}

/// Turns a content-extraction error, given by its message, into a `RuntimeError`.
pub fn map_extract_error(message: String) -> (r: Failure)
    ensures
        r.kind == ExceptionKind::RuntimeError,
        r.message@ == message@,
{
    Failure::new(ExceptionKind::RuntimeError, message)
}

pub open spec fn invalid_timeout_message() -> Seq<char> {
    "timeout must be a positive finite number within u64 seconds"@
}

/// The failure raised for a timeout that is not a positive finite number of seconds
/// within `u64`.
pub fn invalid_timeout() -> (r: Failure)
    ensures
        r.is(ExceptionKind::ValueError, invalid_timeout_message()),
{
    failure_from_str(
        ExceptionKind::ValueError,
        "timeout must be a positive finite number within u64 seconds",
    )
}

} // verus!
