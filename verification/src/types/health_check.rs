//! Health probes.
use vstd::prelude::*;

verus! {

/// Default interval between checks, in seconds.
pub fn default_interval() -> (r: u64)
    ensures
        r == 30,
{
    30
}

/// Default timeout of one HTTP check, in seconds.
pub fn default_timeout() -> (r: u64)
    ensures
        r == 5,
{
    5
}

/// Default number of consecutive failures before a service counts as unhealthy.
pub fn default_max_failures() -> (r: u32)
    ensures
        r == 3,
{
    3
}

/// Health check specification — determines how to verify a service is healthy.
#[derive(Debug, Clone)]
pub enum HealthCheckSpec {
    /// HTTP endpoint health check.
    Http {
        /// URL to probe (e.g., `http://localhost:8080/health`).
        endpoint: String,
        /// Interval between checks in seconds.
        interval_secs: u64,
        /// Timeout for each check in seconds.
        timeout_secs: u64,
        /// Number of consecutive failures before marking unhealthy.
        max_failures: u32,
    },
    /// TCP connect health check.
    Tcp {
        /// Address to connect to (e.g., `127.0.0.1:5432`).
        address: String,
        /// Interval between checks in seconds.
        interval_secs: u64,
        /// Number of consecutive failures before marking unhealthy.
        max_failures: u32,
    },
    /// Command execution health check.
    Command {
        /// Command to execute.
        command: String,
        /// Command arguments.
        args: Vec<String>,
        /// Interval between checks in seconds.
        interval_secs: u64,
        /// Number of consecutive failures before marking unhealthy.
        max_failures: u32,
    },
    /// File existence health check.
    File {
        /// Path to check for existence.
        path: String,
        /// Interval between checks in seconds.
        interval_secs: u64,
        /// Number of consecutive failures before marking unhealthy.
        max_failures: u32,
    },
}

/// Two probes are the same: same kind, same settings, texts with the same characters.
pub open spec fn probe_same(a: HealthCheckSpec, b: HealthCheckSpec) -> bool {
    match (a, b) {
        (
            HealthCheckSpec::Http { endpoint: e1, interval_secs: i1, timeout_secs: t1, max_failures: m1 },
            HealthCheckSpec::Http { endpoint: e2, interval_secs: i2, timeout_secs: t2, max_failures: m2 },
        ) => e1@ == e2@ && i1 == i2 && t1 == t2 && m1 == m2,
        (
            HealthCheckSpec::Tcp { address: a1, interval_secs: i1, max_failures: m1 },
            HealthCheckSpec::Tcp { address: a2, interval_secs: i2, max_failures: m2 },
        ) => a1@ == a2@ && i1 == i2 && m1 == m2,
        (
            HealthCheckSpec::Command { command: c1, args: r1, interval_secs: i1, max_failures: m1 },
            HealthCheckSpec::Command { command: c2, args: r2, interval_secs: i2, max_failures: m2 },
        ) => c1@ == c2@ && r1@ == r2@ && i1 == i2 && m1 == m2,
        (
            HealthCheckSpec::File { path: p1, interval_secs: i1, max_failures: m1 },
            HealthCheckSpec::File { path: p2, interval_secs: i2, max_failures: m2 },
        ) => p1@ == p2@ && i1 == i2 && m1 == m2,
        _ => false,
    }
}

/// Two optional probes are the same.
pub open spec fn opt_probe_same(a: Option<HealthCheckSpec>, b: Option<HealthCheckSpec>) -> bool {
    match (a, b) {
        (Some(x), Some(y)) => probe_same(x, y),
        (None, None) => true,
        _ => false,
    }
}

/// A copy of a list of strings.
pub fn copy_strings(v: &Vec<String>) -> (r: Vec<String>)
    ensures
        r@ == v@,
{
    let mut out: Vec<String> = Vec::new();
    let mut i: usize = 0;
    while i < v.len()
        invariant
            i <= v@.len(),
            out@ == v@.take(i as int),
        decreases v@.len() - i,
    {
        out.push(v[i].clone());
        i = i + 1;
        assert(out@ =~= v@.take(i as int));
    }
    assert(v@.take(v@.len() as int) =~= v@);
    out
}

impl HealthCheckSpec {
    /// A copy of this probe.
    pub fn dup(&self) -> (r: HealthCheckSpec)
        ensures
            probe_same(r, *self),
    {
        match self {
            HealthCheckSpec::Http { endpoint, interval_secs, timeout_secs, max_failures } => {
                HealthCheckSpec::Http {
                    endpoint: endpoint.clone(),
                    interval_secs: *interval_secs,
                    timeout_secs: *timeout_secs,
                    max_failures: *max_failures,
                }
            },
            HealthCheckSpec::Tcp { address, interval_secs, max_failures } => HealthCheckSpec::Tcp {
                address: address.clone(),
                interval_secs: *interval_secs,
                max_failures: *max_failures,
            },
            HealthCheckSpec::Command { command, args, interval_secs, max_failures } => {
                HealthCheckSpec::Command {
                    command: command.clone(),
                    args: copy_strings(args),
                    interval_secs: *interval_secs,
                    max_failures: *max_failures,
                }
            },
            HealthCheckSpec::File { path, interval_secs, max_failures } => HealthCheckSpec::File {
                path: path.clone(),
                interval_secs: *interval_secs,
                max_failures: *max_failures,
            },
        }
    }
}

} // verus!
