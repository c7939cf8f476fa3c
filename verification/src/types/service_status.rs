//! Runtime state of a managed service.
use std::str::FromStr;
use vstd::prelude::*;

use crate::error::Error;
use crate::text::str_eq;

verus! {

/// Process lifecycle state of a service.
#[derive(Debug, Clone, Copy, PartialEq, Eq, Structural)]
#[non_exhaustive]
pub enum ServiceState {
    /// Not started / not loaded.
    Inactive,
    /// Starting up.
    Starting,
    /// Running and ready.
    Running,
    /// Running but health checks failing.
    Degraded,
    /// Reloading configuration.
    Reloading,
    /// Shutting down.
    Stopping,
    /// Cleanly stopped.
    Stopped,
    /// Exited with non-zero or was killed.
    Failed,
    /// State cannot be determined.
    Unknown,
}

/// High-level phase (Kubernetes-style summary).
#[derive(Debug, Clone, Copy, PartialEq, Eq, Structural)]
#[non_exhaustive]
pub enum ServicePhase {
    /// Waiting to start.
    Pending,
    /// Actively running (may be degraded).
    Running,
    /// Completed successfully.
    Succeeded,
    /// Crashed or exceeded restart limit.
    Failed,
    /// State cannot be determined.
    Unknown,
}

/// Health state of a service (separate from process state).
#[derive(Debug, Clone, Copy, PartialEq, Eq, Structural)]
#[non_exhaustive]
pub enum HealthState {
    /// Health state not yet determined.
    Unknown,
    /// All health checks passing.
    Healthy,
    /// Health checks failing.
    Unhealthy,
    /// Some checks passing, some failing.
    Degraded,
}

/// The phase that summarises a state.
pub open spec fn phase_of(s: ServiceState) -> ServicePhase {
    match s {
        ServiceState::Inactive | ServiceState::Stopped | ServiceState::Starting => ServicePhase::Pending,
        ServiceState::Running | ServiceState::Degraded | ServiceState::Reloading
        | ServiceState::Stopping => ServicePhase::Running,
        ServiceState::Failed => ServicePhase::Failed,
        ServiceState::Unknown => ServicePhase::Unknown,
    }
}

/// The lowercase name of a state.
pub open spec fn state_name(s: ServiceState) -> Seq<char> {
    match s {
        ServiceState::Inactive => "inactive"@,
        ServiceState::Starting => "starting"@,
        ServiceState::Running => "running"@,
        ServiceState::Degraded => "degraded"@,
        ServiceState::Reloading => "reloading"@,
        ServiceState::Stopping => "stopping"@,
        ServiceState::Stopped => "stopped"@,
        ServiceState::Failed => "failed"@,
        ServiceState::Unknown => "unknown"@,
    }
}

/// The lowercase name of a phase.
pub open spec fn phase_name(p: ServicePhase) -> Seq<char> {
    match p {
        ServicePhase::Pending => "pending"@,
        ServicePhase::Running => "running"@,
        ServicePhase::Succeeded => "succeeded"@,
        ServicePhase::Failed => "failed"@,
        ServicePhase::Unknown => "unknown"@,
    }
}

/// The lowercase name of a health state.
pub open spec fn health_name(h: HealthState) -> Seq<char> {
    match h {
        HealthState::Unknown => "unknown"@,
        HealthState::Healthy => "healthy"@,
        HealthState::Unhealthy => "unhealthy"@,
        HealthState::Degraded => "degraded"@,
    }
}

impl ServiceState {
    /// Map detailed state to high-level phase.
    pub fn phase(&self) -> (p: ServicePhase)
        ensures
            p == phase_of(*self),
    {
        match self {
            ServiceState::Inactive | ServiceState::Stopped | ServiceState::Starting => {
                ServicePhase::Pending
            },
            ServiceState::Running | ServiceState::Degraded | ServiceState::Reloading
            | ServiceState::Stopping => ServicePhase::Running,
            ServiceState::Failed => ServicePhase::Failed,
            ServiceState::Unknown => ServicePhase::Unknown,
        }
    }

    /// The lowercase name of this state.
    pub fn to_string(&self) -> (r: String)
        ensures
            r@ == state_name(*self),
    {
        let s = match self {
            ServiceState::Inactive => "inactive",
            ServiceState::Starting => "starting",
            ServiceState::Running => "running",
            ServiceState::Degraded => "degraded",
            ServiceState::Reloading => "reloading",
            ServiceState::Stopping => "stopping",
            ServiceState::Stopped => "stopped",
            ServiceState::Failed => "failed",
            ServiceState::Unknown => "unknown",
        };
        s.to_owned()
    }

    /// The state whose name is `s`.
    pub fn from_name(s: &str) -> (r: Result<ServiceState, Error>)
        ensures
            match r {
                Ok(x) => state_name(x) == s@,
                Err(e) => (forall|x: ServiceState| state_name(x) != s@) && e == Error::ConfigError(
                    e->ConfigError_0,
                ) && e->ConfigError_0@ == "unknown service state: "@ + s@,
            },
    {
        if str_eq(s, "inactive") {
            Ok(ServiceState::Inactive)
        } else if str_eq(s, "starting") {
            Ok(ServiceState::Starting)
        } else if str_eq(s, "running") {
            Ok(ServiceState::Running)
        } else if str_eq(s, "degraded") {
            Ok(ServiceState::Degraded)
        } else if str_eq(s, "reloading") {
            Ok(ServiceState::Reloading)
        } else if str_eq(s, "stopping") {
            Ok(ServiceState::Stopping)
        } else if str_eq(s, "stopped") {
            Ok(ServiceState::Stopped)
        } else if str_eq(s, "failed") {
            Ok(ServiceState::Failed)
        } else if str_eq(s, "unknown") {
            Ok(ServiceState::Unknown)
        } else {
            let mut m = String::new();
            m.append("unknown service state: ");
            m.append(s);
            Err(Error::ConfigError(m))
        }
    }
}

impl ServicePhase {
    /// The lowercase name of this phase.
    pub fn to_string(&self) -> (r: String)
        ensures
            r@ == phase_name(*self),
    {
        let s = match self {
            ServicePhase::Pending => "pending",
            ServicePhase::Running => "running",
            ServicePhase::Succeeded => "succeeded",
            ServicePhase::Failed => "failed",
            ServicePhase::Unknown => "unknown",
        };
        s.to_owned()
    }

    /// The phase whose name is `s`.
    pub fn from_name(s: &str) -> (r: Result<ServicePhase, Error>)
        ensures
            match r {
                Ok(x) => phase_name(x) == s@,
                Err(e) => (forall|x: ServicePhase| phase_name(x) != s@) && e == Error::ConfigError(
                    e->ConfigError_0,
                ) && e->ConfigError_0@ == "unknown service phase: "@ + s@,
            },
    {
        if str_eq(s, "pending") {
            Ok(ServicePhase::Pending)
        } else if str_eq(s, "running") {
            Ok(ServicePhase::Running)
        } else if str_eq(s, "succeeded") {
            Ok(ServicePhase::Succeeded)
        } else if str_eq(s, "failed") {
            Ok(ServicePhase::Failed)
        } else if str_eq(s, "unknown") {
            Ok(ServicePhase::Unknown)
        } else {
            let mut m = String::new();
            m.append("unknown service phase: ");
            m.append(s);
            Err(Error::ConfigError(m))
        }
    }
}

impl HealthState {
    /// The lowercase name of this health state.
    pub fn to_string(&self) -> (r: String)
        ensures
            r@ == health_name(*self),
    {
        let s = match self {
            HealthState::Unknown => "unknown",
            HealthState::Healthy => "healthy",
            HealthState::Unhealthy => "unhealthy",
            HealthState::Degraded => "degraded",
        };
        s.to_owned()
    }

    /// The health state whose name is `s`.
    pub fn from_name(s: &str) -> (r: Result<HealthState, Error>)
        ensures
            match r {
                Ok(x) => health_name(x) == s@,
                Err(e) => (forall|x: HealthState| health_name(x) != s@) && e == Error::ConfigError(
                    e->ConfigError_0,
                ) && e->ConfigError_0@ == "unknown health state: "@ + s@,
            },
    {
        if str_eq(s, "unknown") {
            Ok(HealthState::Unknown)
        } else if str_eq(s, "healthy") {
            Ok(HealthState::Healthy)
        } else if str_eq(s, "unhealthy") {
            Ok(HealthState::Unhealthy)
        } else if str_eq(s, "degraded") {
            Ok(HealthState::Degraded)
        } else {
            let mut m = String::new();
            m.append("unknown health state: ");
            m.append(s);
            Err(Error::ConfigError(m))
        }
    }
}

impl Default for HealthState {
    fn default() -> (r: Self)
        ensures
            r == HealthState::Unknown,
    {
        HealthState::Unknown
    }
}

impl FromStr for ServiceState {
    type Err = Error;

    fn from_str(s: &str) -> (r: Result<ServiceState, Error>)
        ensures
            match r {
                Ok(x) => state_name(x) == s@,
                Err(e) => (forall|x: ServiceState| state_name(x) != s@) && e is ConfigError && e->ConfigError_0@
                    == "unknown service state: "@ + s@,
            },
    {
        ServiceState::from_name(s)
    }
}

impl FromStr for ServicePhase {
    type Err = Error;

    fn from_str(s: &str) -> (r: Result<ServicePhase, Error>)
        ensures
            match r {
                Ok(x) => phase_name(x) == s@,
                Err(e) => (forall|x: ServicePhase| phase_name(x) != s@) && e is ConfigError && e->ConfigError_0@
                    == "unknown service phase: "@ + s@,
            },
    {
        ServicePhase::from_name(s)
    }
}

impl FromStr for HealthState {
    type Err = Error;

    fn from_str(s: &str) -> (r: Result<HealthState, Error>)
        ensures
            match r {
                Ok(x) => health_name(x) == s@,
                Err(e) => (forall|x: HealthState| health_name(x) != s@) && e is ConfigError && e->ConfigError_0@
                    == "unknown health state: "@ + s@,
            },
    {
        HealthState::from_name(s)
    }
}

/// Distinct states have distinct names, so a name is read back as the state it names.
pub proof fn state_name_roundtrip(a: ServiceState, b: ServiceState)
    ensures
        state_name(a) == state_name(b) ==> a == b,
{
    reveal_strlit("inactive");
    reveal_strlit("starting");
    reveal_strlit("running");
    reveal_strlit("degraded");
    reveal_strlit("reloading");
    reveal_strlit("stopping");
    reveal_strlit("stopped");
    reveal_strlit("failed");
    reveal_strlit("unknown");
    if state_name(a) == state_name(b) && a != b {
        assert(state_name(a)[0] != state_name(b)[0] || state_name(a).len() != state_name(b).len()
            || state_name(a)[2] != state_name(b)[2] || state_name(a)[4] != state_name(b)[4]);
    }
}

/// Distinct phases have distinct names.
pub proof fn phase_name_roundtrip(a: ServicePhase, b: ServicePhase)
    ensures
        phase_name(a) == phase_name(b) ==> a == b,
{
    reveal_strlit("pending");
    reveal_strlit("running");
    reveal_strlit("succeeded");
    reveal_strlit("failed");
    reveal_strlit("unknown");
    if phase_name(a) == phase_name(b) && a != b {
        assert(phase_name(a)[0] != phase_name(b)[0]);
    }
}

/// Distinct health states have distinct names.
pub proof fn health_name_roundtrip(a: HealthState, b: HealthState)
    ensures
        health_name(a) == health_name(b) ==> a == b,
{
    reveal_strlit("unknown");
    reveal_strlit("healthy");
    reveal_strlit("unhealthy");
    reveal_strlit("degraded");
    if health_name(a) == health_name(b) && a != b {
        assert(health_name(a)[0] != health_name(b)[0] || health_name(a)[2] != health_name(b)[2]);
    }
}

/// Runtime status of a managed service.
#[derive(Debug, Clone)]
pub struct ServiceStatus {
    /// Service name.
    pub name: String,
    /// Current state.
    pub state: ServiceState,
    /// Process ID (if running).
    pub pid: Option<u32>,
    /// Last exit code (if stopped/failed).
    pub exit_code: Option<i32>,
    /// When the service was last started, in seconds since the Unix epoch.
    pub started_at: Option<i64>,
    /// Uptime in seconds (if running).
    pub uptime_secs: Option<u64>,
    /// Number of times the service has been restarted.
    pub restart_count: u32,
    /// Health state.
    pub health: HealthState,
    /// Which backend is managing this service.
    pub backend: String,
    /// Resident memory in bytes (if available).
    pub memory_bytes: Option<u64>,
}

/// A status that records only a name, a state and a backend.
pub open spec fn bare_status(s: ServiceStatus, name: Seq<char>, state: ServiceState, backend: Seq<char>) -> bool {
    &&& s.name@ == name
    &&& s.state == state
    &&& s.pid is None
    &&& s.exit_code is None
    &&& s.started_at is None
    &&& s.uptime_secs is None
    &&& s.restart_count == 0
    &&& s.health == HealthState::Unknown
    &&& s.backend@ == backend
    &&& s.memory_bytes is None
}

impl ServiceStatus {
    /// A status with the given name, state and backend; all optional fields unset.
    pub fn new(name: &str, state: ServiceState, backend: &str) -> (s: ServiceStatus)
        ensures
            bare_status(s, name@, state, backend@),
    {
        ServiceStatus {
            name: name.to_owned(),
            state,
            pid: None,
            exit_code: None,
            started_at: None,
            uptime_secs: None,
            restart_count: 0,
            health: HealthState::Unknown,
            backend: backend.to_owned(),
            memory_bytes: None,
        }
    }

    /// Set the PID on this status (builder pattern).
    pub fn with_pid(self, pid: u32) -> (s: ServiceStatus)
        ensures
            s == (ServiceStatus { pid: Some(pid), ..self }),
    {
        let mut s = self;
        s.pid = Some(pid);
        s
    }
}

} // verus!
