//! The canonical service specification.
use vstd::prelude::*;

use crate::error::Error;
use crate::strmap::{keys_of, Dup, StrMap};
use crate::types::backend_overrides::BackendOverrides;
use crate::types::health_check::HealthCheckSpec;
use crate::types::logging::LoggingSpec;
use crate::types::resource_limits::ResourceLimits;
use crate::types::socket_spec::SocketSpec;

verus! {

/// Default start/stop timeout, in seconds.
pub fn default_timeout() -> (r: u64)
    ensures
        r == 90,
{
    90
}

/// Default delay between restarts, in seconds.
pub fn default_restart_delay() -> (r: u64)
    ensures
        r == 5,
{
    5
}

/// Default running time after which the retry counter resets, in seconds.
pub fn default_reset_after() -> (r: u64)
    ensures
        r == 300,
{
    300
}

/// Type of service (maps to systemd `Type=` / launchd `KeepAlive`).
#[derive(Debug, Clone, Copy, PartialEq, Eq, Structural)]
pub enum ServiceType {
    /// Long-running process (default).
    Simple,
    /// Run-once task.
    Oneshot,
    /// Long-running with `sd_notify` readiness.
    Notify,
    /// Traditional daemon that forks.
    Forking,
    /// Timer-triggered task.
    Timer,
    /// Socket-activated service.
    Socket,
}

/// The lowercase name of a service type.
pub open spec fn service_type_name(t: ServiceType) -> Seq<char> {
    match t {
        ServiceType::Simple => "simple"@,
        ServiceType::Oneshot => "oneshot"@,
        ServiceType::Notify => "notify"@,
        ServiceType::Forking => "forking"@,
        ServiceType::Timer => "timer"@,
        ServiceType::Socket => "socket"@,
    }
}

impl Default for ServiceType {
    fn default() -> (r: Self)
        ensures
            r == ServiceType::Simple,
    {
        ServiceType::Simple
    }
}

impl ServiceType {
    /// The lowercase name of this service type.
    pub fn to_string(&self) -> (r: String)
        ensures
            r@ == service_type_name(*self),
    {
        let s = match self {
            ServiceType::Simple => "simple",
            ServiceType::Oneshot => "oneshot",
            ServiceType::Notify => "notify",
            ServiceType::Forking => "forking",
            ServiceType::Timer => "timer",
            ServiceType::Socket => "socket",
        };
        s.to_owned()
    }
}

/// When to restart the service.
#[derive(Debug, Clone, Copy, PartialEq, Eq, Structural)]
pub enum RestartStrategy {
    /// Always restart regardless of exit code.
    Always,
    /// Restart only on non-zero exit (default).
    OnFailure,
    /// Restart only on clean exit (exit code 0).
    OnSuccess,
    /// Never restart.
    Never,
}

/// The kebab-case name of a restart strategy.
pub open spec fn restart_strategy_name(s: RestartStrategy) -> Seq<char> {
    match s {
        RestartStrategy::Always => "always"@,
        RestartStrategy::OnFailure => "on-failure"@,
        RestartStrategy::OnSuccess => "on-success"@,
        RestartStrategy::Never => "never"@,
    }
}

impl Default for RestartStrategy {
    fn default() -> (r: Self)
        ensures
            r == RestartStrategy::OnFailure,
    {
        RestartStrategy::OnFailure
    }
}

impl RestartStrategy {
    /// The kebab-case name of this strategy.
    pub fn to_string(&self) -> (r: String)
        ensures
            r@ == restart_strategy_name(*self),
    {
        let s = match self {
            RestartStrategy::Always => "always",
            RestartStrategy::OnFailure => "on-failure",
            RestartStrategy::OnSuccess => "on-success",
            RestartStrategy::Never => "never",
        };
        s.to_owned()
    }
}

/// How and when to restart the service.
#[derive(Debug, Clone, Copy, PartialEq, Eq, Structural)]
pub struct RestartPolicy {
    /// Restart strategy.
    pub strategy: RestartStrategy,
    /// Delay between restarts in seconds.
    pub delay_secs: u64,
    /// Maximum restart attempts (0 = unlimited).
    pub max_retries: u32,
    /// Reset retry counter after this many seconds of successful running.
    pub reset_after_secs: u64,
}

impl Default for RestartPolicy {
    fn default() -> (r: Self)
        ensures
            r == (RestartPolicy {
                strategy: RestartStrategy::OnFailure,
                delay_secs: 5,
                max_retries: 0,
                reset_after_secs: 300,
            }),
    {
        RestartPolicy {
            strategy: RestartStrategy::OnFailure,
            delay_secs: default_restart_delay(),
            max_retries: 0,
            reset_after_secs: default_reset_after(),
        }
    }
}

/// Condition that must be met before a dependency is considered satisfied.
#[derive(Debug, Clone, Copy, PartialEq, Eq, Hash, Structural)]
pub enum DependencyCondition {
    /// Dependency process has started (default).
    ServiceStarted,
    /// Dependency has passed its readiness probe.
    ServiceHealthy,
    /// Dependency has exited successfully (for oneshot services).
    ServiceCompletedSuccessfully,
}

/// The snake_case name of a dependency condition.
pub open spec fn condition_name(c: DependencyCondition) -> Seq<char> {
    match c {
        DependencyCondition::ServiceStarted => "service_started"@,
        DependencyCondition::ServiceHealthy => "service_healthy"@,
        DependencyCondition::ServiceCompletedSuccessfully => "service_completed_successfully"@,
    }
}

impl View for DependencyCondition {
    type V = DependencyCondition;

    open spec fn view(&self) -> DependencyCondition {
        *self
    }
}

impl Dup for DependencyCondition {
    fn dup(&self) -> (r: DependencyCondition) {
        *self
    }
}

impl Default for DependencyCondition {
    fn default() -> (r: Self)
        ensures
            r == DependencyCondition::ServiceStarted,
    {
        DependencyCondition::ServiceStarted
    }
}

impl DependencyCondition {
    /// The snake_case name of this condition.
    pub fn to_string(&self) -> (r: String)
        ensures
            r@ == condition_name(*self),
    {
        let s = match self {
            DependencyCondition::ServiceStarted => "service_started",
            DependencyCondition::ServiceHealthy => "service_healthy",
            DependencyCondition::ServiceCompletedSuccessfully => "service_completed_successfully",
        };
        s.to_owned()
    }
}

/// Dependency and ordering specification.
#[derive(Debug, Clone)]
pub struct DependencySpec {
    /// Services that must start before this one.
    pub after: Vec<String>,
    /// Services that must start after this one.
    pub before: Vec<String>,
    /// Services that are required (pulled into the transaction).
    pub requires: Vec<String>,
    /// Services that are wanted (weak requirement, no failure on missing).
    pub wants: Vec<String>,
    /// Conflicting services (stopped when this starts).
    pub conflicts: Vec<String>,
    /// Conditions for each dependency in `requires` and `wants`, by service name.
    /// Services not in the map default to `ServiceStarted`.
    pub conditions: StrMap<DependencyCondition>,
    /// Services that must be stopped BEFORE this service stops.
    pub stop_before: Vec<String>,
    /// Services that must be stopped AFTER this service stops.
    pub stop_after: Vec<String>,
}

impl Default for DependencySpec {
    fn default() -> (r: Self)
        ensures
            r.after@.len() == 0,
            r.before@.len() == 0,
            r.requires@.len() == 0,
            r.wants@.len() == 0,
            r.conflicts@.len() == 0,
            r.conditions@.len() == 0,
            r.stop_before@.len() == 0,
            r.stop_after@.len() == 0,
    {
        DependencySpec {
            after: Vec::new(),
            before: Vec::new(),
            requires: Vec::new(),
            wants: Vec::new(),
            conflicts: Vec::new(),
            conditions: StrMap::new(),
            stop_before: Vec::new(),
            stop_after: Vec::new(),
        }
    }
}

/// The canonical service specification.
/// Written as YAML by users, translated to backend-native formats at runtime.
#[derive(Debug, Clone)]
pub struct ServiceSpec {
    /// Unique service name (used as systemd unit name / launchd Label).
    pub name: String,
    /// Human-readable description.
    pub description: String,
    /// Command to execute (program path).
    pub command: String,
    /// Command arguments.
    pub args: Vec<String>,
    /// Service type.
    pub service_type: ServiceType,
    /// Working directory.
    pub working_directory: Option<String>,
    /// User to run as.
    pub user: Option<String>,
    /// Group to run as.
    pub group: Option<String>,
    /// Environment variables.
    pub environment: StrMap<String>,
    /// Restart policy.
    pub restart: RestartPolicy,
    /// Dependency ordering.
    pub depends_on: DependencySpec,
    /// Liveness probe -- is the process alive? If failing, restart it.
    pub liveness: Option<HealthCheckSpec>,
    /// Readiness probe -- is the process ready to serve?
    pub readiness: Option<HealthCheckSpec>,
    /// Startup probe -- has the process finished initializing?
    pub startup: Option<HealthCheckSpec>,
    /// If true, failure of this service triggers shutdown of all dependents.
    pub critical: bool,
    /// Socket activation.
    pub sockets: Vec<SocketSpec>,
    /// Resource limits.
    pub resources: Option<ResourceLimits>,
    /// Logging configuration.
    pub logging: LoggingSpec,
    /// Notification protocol (for Type=notify services).
    pub notify: bool,
    /// Watchdog interval (seconds, 0 = disabled).
    pub watchdog_sec: u64,
    /// Timeout for starting (seconds).
    pub timeout_start_sec: u64,
    /// Timeout for stopping (seconds).
    pub timeout_stop_sec: u64,
    /// Backend-specific overrides (escape hatch).
    pub overrides: BackendOverrides,
}

/// The first validation failure of a spec, if any.
pub open spec fn validation_failure(s: ServiceSpec) -> Option<Seq<char>> {
    if s.name@.len() == 0 {
        Some("service name must not be empty"@)
    } else if s.command@.len() == 0 {
        Some("service command must not be empty"@)
    } else if s.timeout_start_sec == 0 {
        Some("timeout_start_sec must be > 0"@)
    } else if s.timeout_stop_sec == 0 {
        Some("timeout_stop_sec must be > 0"@)
    } else if s.restart.strategy != RestartStrategy::Never && s.restart.delay_secs == 0 {
        Some("restart.delay_secs must be > 0 when strategy is not Never"@)
    } else {
        None
    }
}

/// A spec as `ServiceSpec::new` builds it: the given name and command, defaults elsewhere.
pub open spec fn fresh_spec(s: ServiceSpec, name: Seq<char>, command: Seq<char>) -> bool {
    &&& s.name@ == name
    &&& s.description@.len() == 0
    &&& s.command@ == command
    &&& s.args@.len() == 0
    &&& s.service_type == ServiceType::Simple
    &&& s.working_directory is None
    &&& s.user is None
    &&& s.group is None
    &&& s.environment@.len() == 0
    &&& s.restart == (RestartPolicy {
        strategy: RestartStrategy::OnFailure,
        delay_secs: 5,
        max_retries: 0,
        reset_after_secs: 300,
    })
    &&& s.depends_on.after@.len() == 0
    &&& s.depends_on.before@.len() == 0
    &&& s.depends_on.requires@.len() == 0
    &&& s.depends_on.wants@.len() == 0
    &&& s.depends_on.conflicts@.len() == 0
    &&& s.depends_on.conditions@.len() == 0
    &&& s.depends_on.stop_before@.len() == 0
    &&& s.depends_on.stop_after@.len() == 0
    &&& s.liveness is None
    &&& s.readiness is None
    &&& s.startup is None
    &&& !s.critical
    &&& s.sockets@.len() == 0
    &&& s.resources is None
    &&& s.logging.stdout is Journal
    &&& s.logging.stderr is Journal
    &&& !s.notify
    &&& s.watchdog_sec == 0
    &&& s.timeout_start_sec == 90
    &&& s.timeout_stop_sec == 90
    &&& s.overrides.systemd@.len() == 0
    &&& s.overrides.launchd@.len() == 0
}

/// Every map of the spec has unique keys, inside each systemd section too.
pub open spec fn spec_keys_unique(s: ServiceSpec) -> bool {
    &&& s.environment.keys().no_duplicates()
    &&& s.depends_on.conditions.keys().no_duplicates()
    &&& s.overrides.launchd.keys().no_duplicates()
    &&& s.overrides.systemd.keys().no_duplicates()
    &&& forall|i: int|
        0 <= i < s.overrides.systemd.pairs().len() ==> keys_of(
            #[trigger] s.overrides.systemd.pairs()[i].1,
        ).no_duplicates()
}

impl ServiceSpec {
    /// Create a new `ServiceSpec` with the given name and command, filling
    /// defaults for all other fields.
    pub fn new(name: &str, command: &str) -> (s: ServiceSpec)
        ensures
            fresh_spec(s, name@, command@),
            spec_keys_unique(s),
    {
        ServiceSpec {
            name: name.to_owned(),
            description: String::new(),
            command: command.to_owned(),
            args: Vec::new(),
            service_type: ServiceType::default(),
            working_directory: None,
            user: None,
            group: None,
            environment: StrMap::new(),
            restart: RestartPolicy::default(),
            depends_on: DependencySpec::default(),
            liveness: None,
            readiness: None,
            startup: None,
            critical: false,
            sockets: Vec::new(),
            resources: None,
            logging: LoggingSpec::default(),
            notify: false,
            watchdog_sec: 0,
            timeout_start_sec: default_timeout(),
            timeout_stop_sec: default_timeout(),
            overrides: BackendOverrides::default(),
        }
    }

    /// Every map of the spec keeps its keys unique, inside each systemd section too.
    pub fn prove_keys_unique(&self)
        ensures
            spec_keys_unique(*self),
    {
        self.environment.prove_keys_unique();
        self.depends_on.conditions.prove_keys_unique();
        self.overrides.launchd.prove_keys_unique();
        self.overrides.systemd.prove_keys_unique();
        let n = self.overrides.systemd.len();
        let mut i: usize = 0;
        while i < n
            invariant
                n == self.overrides.systemd.pairs().len(),
                i <= n,
                forall|j: int|
                    0 <= j < i ==> keys_of(#[trigger] self.overrides.systemd.pairs()[j].1).no_duplicates(),
            decreases n - i,
        {
            let section = self.overrides.systemd.value_at(i);
            section.prove_keys_unique();
            i = i + 1;
        }
    }

    /// Validate the spec, returning an error if any fields have invalid values.
    pub fn validate(&self) -> (r: Result<(), Error>)
        ensures
            match validation_failure(*self) {
                None => r is Ok,
                Some(m) => r is Err && r->Err_0 is ConfigError && r->Err_0->ConfigError_0@ == m,
            },
    {
        if self.name.unicode_len() == 0 {
            return Err(Error::ConfigError("service name must not be empty".to_owned()));
        }
        if self.command.unicode_len() == 0 {
            return Err(Error::ConfigError("service command must not be empty".to_owned()));
        }
        if self.timeout_start_sec == 0 {
            return Err(Error::ConfigError("timeout_start_sec must be > 0".to_owned()));
        }
        if self.timeout_stop_sec == 0 {
            return Err(Error::ConfigError("timeout_stop_sec must be > 0".to_owned()));
        }
        // cpu_weight, io_weight and nice are valid by construction (Weight, NiceValue).
        if self.restart.strategy != RestartStrategy::Never && self.restart.delay_secs == 0 {
            return Err(
                Error::ConfigError(
                    "restart.delay_secs must be > 0 when strategy is not Never".to_owned(),
                ),
            );
        }
        Ok(())
    }
}

} // verus!
