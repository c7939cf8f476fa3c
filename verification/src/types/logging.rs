//! Where a service's output goes.
use vstd::prelude::*;
use vstd::std_specs::cmp::PartialEqSpecImpl;

verus! {

/// Where to direct log output.
#[derive(Debug, Clone)]
pub enum LogTarget {
    /// Send to the system journal (journald on Linux, os_log on macOS).
    Journal,
    /// Write to a file at the given path.
    File(String),
    /// Discard output.
    Null,
    /// Inherit the parent process's file descriptor.
    Inherit,
}

/// Equality of log targets: same variant, file targets with the same path.
pub open spec fn log_target_eq(a: LogTarget, b: LogTarget) -> bool {
    match (a, b) {
        (LogTarget::Journal, LogTarget::Journal) => true,
        (LogTarget::Null, LogTarget::Null) => true,
        (LogTarget::Inherit, LogTarget::Inherit) => true,
        (LogTarget::File(x), LogTarget::File(y)) => x@ == y@,
        _ => false,
    }
}

impl PartialEq for LogTarget {
    fn eq(&self, other: &Self) -> (r: bool) {
        match (self, other) {
            (LogTarget::Journal, LogTarget::Journal) => true,
            (LogTarget::Null, LogTarget::Null) => true,
            (LogTarget::Inherit, LogTarget::Inherit) => true,
            (LogTarget::File(x), LogTarget::File(y)) => *x == *y,
            _ => false,
        }
    }
}

impl PartialEqSpecImpl for LogTarget {
    open spec fn obeys_eq_spec() -> bool {
        true
    }

    open spec fn eq_spec(&self, other: &LogTarget) -> bool {
        log_target_eq(*self, *other)
    }
}

impl Default for LogTarget {
    fn default() -> (r: Self)
        ensures
            r is Journal,
    {
        LogTarget::Journal
    }
}

impl LogTarget {
    /// An identical copy.
    pub fn dup(&self) -> (r: LogTarget)
        ensures
            r == *self,
    {
        match self {
            LogTarget::Journal => LogTarget::Journal,
            LogTarget::File(p) => LogTarget::File(p.clone()),
            LogTarget::Null => LogTarget::Null,
            LogTarget::Inherit => LogTarget::Inherit,
        }
    }
}

/// Logging configuration for a service.
#[derive(Debug, Clone)]
pub struct LoggingSpec {
    /// Where to send stdout output.
    pub stdout: LogTarget,
    /// Where to send stderr output.
    pub stderr: LogTarget,
}

impl Default for LoggingSpec {
    fn default() -> (r: Self)
        ensures
            r.stdout is Journal,
            r.stderr is Journal,
    {
        LoggingSpec { stdout: LogTarget::Journal, stderr: LogTarget::Journal }
    }
}

impl LoggingSpec {
    /// An identical copy.
    pub fn dup(&self) -> (r: LoggingSpec)
        ensures
            r == *self,
    {
        LoggingSpec { stdout: self.stdout.dup(), stderr: self.stderr.dup() }
    }
}

} // verus!
