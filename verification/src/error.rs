//! Errors of service management, their rendering and their comparison.
use vstd::prelude::*;
use vstd::std_specs::convert::FromSpecImpl;
use vstd::std_specs::cmp::PartialEqSpecImpl;

use crate::text::{dec_nat, push_u64};

verus! {

/// The category of an I/O failure (the kinds a caller distinguishes).
#[derive(Debug, Clone, Copy, PartialEq, Eq, Structural)]
pub enum IoErrorKind {
    NotFound,
    PermissionDenied,
    ConnectionRefused,
    ConnectionReset,
    ConnectionAborted,
    NotConnected,
    AddrInUse,
    AddrNotAvailable,
    BrokenPipe,
    AlreadyExists,
    WouldBlock,
    InvalidInput,
    InvalidData,
    TimedOut,
    WriteZero,
    Interrupted,
    Unsupported,
    UnexpectedEof,
    OutOfMemory,
    /// Any other kind of failure.
    Other,
}

/// An I/O failure: its kind and its human-readable message.
#[derive(Debug, Clone)]
pub struct IoError {
    pub kind: IoErrorKind,
    pub message: String,
}

impl IoError {
    /// An I/O failure of the given kind with the given message.
    pub fn new(kind: IoErrorKind, message: &str) -> (e: IoError)
        ensures
            e.kind == kind,
            e.message@ == message@,
    {
        IoError { kind, message: message.to_owned() }
    }
}

/// Errors that can occur in service management.
#[derive(Debug, Clone)]
#[non_exhaustive]
pub enum Error {
    /// Service with the given name was not found.
    ServiceNotFound(String),
    /// A service with the given name already exists.
    ServiceAlreadyExists(String),
    /// The requested backend is not available on this system.
    BackendUnavailable(String),
    /// An error occurred in a specific backend operation.
    BackendError {
        /// Which backend produced the error (e.g., `"systemd"`, `"launchd"`).
        backend: String,
        /// The operation that failed (e.g., `"install"`, `"start"`).
        operation: String,
        /// Human-readable detail about the failure.
        detail: String,
    },
    /// Configuration error.
    ConfigError(String),
    /// A dependency requirement could not be satisfied.
    DependencyError(String),
    /// A health check failed.
    HealthCheckFailed(String),
    /// An operation timed out.
    TimeoutError {
        /// The service that timed out.
        service: String,
        /// The timeout duration in seconds.
        timeout_secs: u64,
    },
    /// An I/O error occurred.
    Io(IoError),
    /// A serialization or deserialization error occurred.
    Serialization(String),
}

/// Whether an error is worth retrying: I/O failures, backend failures and timeouts.
pub open spec fn retryable(e: Error) -> bool {
    e is Io || e is BackendError || e is TimeoutError
}

impl Error {
    /// Returns `true` if this is a retryable error.
    pub fn is_retryable(&self) -> (r: bool)
        ensures
            r == retryable(*self),
    {
        match self {
            Error::Io(_) | Error::BackendError { .. } | Error::TimeoutError { .. } => true,
            _ => false,
        }
    }
}

/// The message an error displays.
pub open spec fn error_text(e: Error) -> Seq<char> {
    match e {
        Error::ServiceNotFound(s) => "service not found: "@ + s@,
        Error::ServiceAlreadyExists(s) => "service already exists: "@ + s@,
        Error::BackendUnavailable(s) => "backend unavailable: "@ + s@,
        Error::BackendError { backend, operation, detail } => backend@ + ": "@ + operation@
            + " failed: "@ + detail@,
        Error::ConfigError(s) => "config error: "@ + s@,
        Error::DependencyError(s) => "dependency error: "@ + s@,
        Error::HealthCheckFailed(s) => "health check failed: "@ + s@,
        Error::TimeoutError { service, timeout_secs } => "timeout: service '"@ + service@
            + "' exceeded "@ + dec_nat(timeout_secs as nat) + "s"@,
        Error::Io(io) => "io error: "@ + io.message@,
        Error::Serialization(s) => "serialization error: "@ + s@,
    }
}

impl Error {
    /// The message this error displays.
    pub fn to_string(&self) -> (s: String)
        ensures
            s@ == error_text(*self),
    {
        let mut s = String::new();
        match self {
            Error::ServiceNotFound(x) => {
                s.append("service not found: ");
                s.append(x.as_str());
            },
            Error::ServiceAlreadyExists(x) => {
                s.append("service already exists: ");
                s.append(x.as_str());
            },
            Error::BackendUnavailable(x) => {
                s.append("backend unavailable: ");
                s.append(x.as_str());
            },
            Error::BackendError { backend, operation, detail } => {
                s.append(backend.as_str());
                s.append(": ");
                s.append(operation.as_str());
                s.append(" failed: ");
                s.append(detail.as_str());
            },
            Error::ConfigError(x) => {
                s.append("config error: ");
                s.append(x.as_str());
            },
            Error::DependencyError(x) => {
                s.append("dependency error: ");
                s.append(x.as_str());
            },
            Error::HealthCheckFailed(x) => {
                s.append("health check failed: ");
                s.append(x.as_str());
            },
            Error::TimeoutError { service, timeout_secs } => {
                s.append("timeout: service '");
                s.append(service.as_str());
                s.append("' exceeded ");
                push_u64(&mut s, *timeout_secs);
                s.append("s");
            },
            Error::Io(io) => {
                s.append("io error: ");
                s.append(io.message.as_str());
            },
            Error::Serialization(x) => {
                s.append("serialization error: ");
                s.append(x.as_str());
            },
        }
        assert(s@ =~= error_text(*self));
        s
    }
}

/// Equality of errors: same variant and equal payloads; I/O failures compare by kind only.
pub open spec fn error_eq(a: Error, b: Error) -> bool {
    match (a, b) {
        (Error::Io(x), Error::Io(y)) => x.kind == y.kind,
        (Error::ServiceNotFound(x), Error::ServiceNotFound(y)) => x@ == y@,
        (Error::ServiceAlreadyExists(x), Error::ServiceAlreadyExists(y)) => x@ == y@,
        (Error::BackendUnavailable(x), Error::BackendUnavailable(y)) => x@ == y@,
        (Error::ConfigError(x), Error::ConfigError(y)) => x@ == y@,
        (Error::DependencyError(x), Error::DependencyError(y)) => x@ == y@,
        (Error::HealthCheckFailed(x), Error::HealthCheckFailed(y)) => x@ == y@,
        (Error::Serialization(x), Error::Serialization(y)) => x@ == y@,
        (
            Error::BackendError { backend: b1, operation: o1, detail: d1 },
            Error::BackendError { backend: b2, operation: o2, detail: d2 },
        ) => b1@ == b2@ && o1@ == o2@ && d1@ == d2@,
        (
            Error::TimeoutError { service: s1, timeout_secs: t1 },
            Error::TimeoutError { service: s2, timeout_secs: t2 },
        ) => s1@ == s2@ && t1 == t2,
        _ => false,
    }
}

impl PartialEq for Error {
    fn eq(&self, other: &Self) -> (r: bool) {
        match (self, other) {
            (Error::Io(a), Error::Io(b)) => a.kind == b.kind,
            (Error::ServiceNotFound(a), Error::ServiceNotFound(b)) => *a == *b,
            (Error::ServiceAlreadyExists(a), Error::ServiceAlreadyExists(b)) => *a == *b,
            (Error::BackendUnavailable(a), Error::BackendUnavailable(b)) => *a == *b,
            (Error::ConfigError(a), Error::ConfigError(b)) => *a == *b,
            (Error::DependencyError(a), Error::DependencyError(b)) => *a == *b,
            (Error::HealthCheckFailed(a), Error::HealthCheckFailed(b)) => *a == *b,
            (Error::Serialization(a), Error::Serialization(b)) => *a == *b,
            (
                Error::BackendError { backend: b1, operation: o1, detail: d1 },
                Error::BackendError { backend: b2, operation: o2, detail: d2 },
            ) => *b1 == *b2 && *o1 == *o2 && *d1 == *d2,
            (
                Error::TimeoutError { service: s1, timeout_secs: t1 },
                Error::TimeoutError { service: s2, timeout_secs: t2 },
            ) => *s1 == *s2 && *t1 == *t2,
            _ => false,
        }
    }
}

impl PartialEqSpecImpl for Error {
    open spec fn obeys_eq_spec() -> bool {
        true
    }

    open spec fn eq_spec(&self, other: &Error) -> bool {
        error_eq(*self, *other)
    }
}

impl From<IoError> for Error {
    fn from(e: IoError) -> (r: Error) {
        Error::Io(e)
    }
}

impl FromSpecImpl<IoError> for Error {
    open spec fn obeys_from_spec() -> bool {
        true
    }

    open spec fn from_spec(e: IoError) -> Error {
        Error::Io(e)
    }
}

/// Error equality is an equivalence relation.
pub proof fn error_eq_is_equivalence(a: Error, b: Error, c: Error)
    ensures
        error_eq(a, a),
        error_eq(a, b) == error_eq(b, a),
        error_eq(a, b) && error_eq(b, c) ==> error_eq(a, c),
{
}

} // verus!
