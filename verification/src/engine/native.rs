//! The native process supervisor's decisions: what a service's record becomes when
//! its process starts, stops or exits, and what its status reads.
//!
//! Spawning, waiting and sleeping happen outside; each step here takes what happened
//! and says what to do next.
use vstd::prelude::*;

use crate::error::Error;
use crate::text::{join_path, path_join, str_eq, str_views};
use crate::types::service_spec::{RestartPolicy, RestartStrategy};
use crate::types::service_status::{bare_status, HealthState, ServiceState, ServiceStatus};

verus! {

/// What the supervisor knows of one service's process.
#[derive(Debug, Clone, Copy)]
pub struct NativeRecord {
    /// The running process, if any.
    pub pid: Option<u32>,
    /// The service's state.
    pub state: ServiceState,
    /// The last exit code.
    pub exit_code: Option<i32>,
    /// Restarts so far.
    pub restart_count: u32,
    /// When the process was last started, in seconds since the Unix epoch.
    pub started_at: Option<i64>,
}

impl NativeRecord {
    /// The record of a service that was just installed.
    pub fn installed() -> (r: NativeRecord)
        ensures
            r.pid is None,
            r.state == ServiceState::Inactive,
            r.exit_code is None,
            r.restart_count == 0,
            r.started_at is None,
    {
        NativeRecord {
            pid: None,
            state: ServiceState::Inactive,
            exit_code: None,
            restart_count: 0,
            started_at: None,
        }
    }

    /// Whether the service is already running with a process.
    pub fn is_running(&self) -> (r: bool)
        ensures
            r == (self.state == ServiceState::Running && self.pid is Some),
    {
        match self.state {
            ServiceState::Running => self.pid.is_some(),
            _ => false,
        }
    }

    /// The process `pid` was started at time `now`.
    pub fn started(&mut self, pid: Option<u32>, now: i64)
        ensures
            final(self).pid == pid,
            final(self).state == ServiceState::Running,
            final(self).started_at == Some(now),
            final(self).exit_code == old(self).exit_code,
            final(self).restart_count == old(self).restart_count,
    {
        self.pid = pid;
        self.state = ServiceState::Running;
        self.started_at = Some(now);
    }

    /// The process was signalled to stop.
    pub fn stopped(&mut self)
        ensures
            final(self).pid is None,
            final(self).state == ServiceState::Stopped,
            final(self).exit_code == old(self).exit_code,
            final(self).restart_count == old(self).restart_count,
            final(self).started_at == old(self).started_at,
    {
        self.pid = None;
        self.state = ServiceState::Stopped;
    }

    /// A restart could not spawn a process.
    pub fn respawn_failed(&mut self)
        ensures
            final(self).state == ServiceState::Failed,
            final(self).pid == old(self).pid,
            final(self).exit_code == old(self).exit_code,
            final(self).restart_count == old(self).restart_count,
            final(self).started_at == old(self).started_at,
    {
        self.state = ServiceState::Failed;
    }
}

/// Whether the restart strategy asks for a restart after exit code `code`.
pub open spec fn restart_wanted(s: RestartStrategy, code: i32) -> bool {
    match s {
        RestartStrategy::Always => true,
        RestartStrategy::OnFailure => code != 0,
        RestartStrategy::OnSuccess => code == 0,
        RestartStrategy::Never => false,
    }
}

/// What each strategy asks after an exit with any code: `Always` a restart whatever
/// the code, `Never` none, `OnFailure` exactly after a non-zero code and `OnSuccess`
/// exactly after a zero code; so with retries left, `on_exit` respawns an `Always`
/// service after every exit, a crash too.
pub proof fn lemma_restart_strategies(code: i32)
    ensures
        restart_wanted(RestartStrategy::Always, code),
        !restart_wanted(RestartStrategy::Never, code),
        restart_wanted(RestartStrategy::OnFailure, code) <==> code != 0,
        restart_wanted(RestartStrategy::OnSuccess, code) <==> code == 0,
{
}

/// Whether another restart is allowed (0 means no limit).
pub open spec fn restart_allowed(max_retries: u32, count: u32) -> bool {
    max_retries == 0 || count < max_retries
}

/// A retry limit of 0 allows restarts without end; any other limit allows exactly as
/// many restarts as it says.
pub proof fn lemma_retry_limit(max_retries: u32, count: u32)
    ensures
        max_retries == 0 ==> restart_allowed(max_retries, count),
        max_retries > 0 ==> (restart_allowed(max_retries, count) <==> count < max_retries),
        restart_allowed(max_retries, count) && count > 0 ==> restart_allowed(max_retries, (count - 1) as u32),
{
}

/// Whether the restart strategy asks for a restart after exit code `code`.
pub fn should_restart(s: RestartStrategy, code: i32) -> (r: bool)
    ensures
        r == restart_wanted(s, code),
{
    match s {
        RestartStrategy::Always => true,
        RestartStrategy::OnFailure => code != 0,
        RestartStrategy::OnSuccess => code == 0,
        RestartStrategy::Never => false,
    }
}

/// Whether another restart is allowed.
pub fn within_retries(max_retries: u32, count: u32) -> (r: bool)
    ensures
        r == restart_allowed(max_retries, count),
{
    max_retries == 0 || count < max_retries
}

/// What the watcher does after the process exits.
pub enum WatchStep {
    /// Wait `delay_secs`, then spawn the process again.
    Respawn { delay_secs: u64 },
    /// Stop watching.
    Finished,
}

/// The process exited with `code` (-1 when it had none): restart it if the policy wants
/// and allows, otherwise record it stopped (code 0) or failed.
pub fn on_exit(rec: &mut NativeRecord, code: i32, policy: &RestartPolicy) -> (step: WatchStep)
    requires
        restart_wanted(policy.strategy, code) && restart_allowed(policy.max_retries, old(rec).restart_count)
            ==> old(rec).restart_count < u32::MAX,
    ensures
        final(rec).pid is None,
        final(rec).exit_code == Some(code),
        final(rec).started_at == old(rec).started_at,
        if restart_wanted(policy.strategy, code) && restart_allowed(
            policy.max_retries,
            old(rec).restart_count,
        ) {
            &&& step == (WatchStep::Respawn { delay_secs: policy.delay_secs })
            &&& final(rec).state == ServiceState::Starting
            &&& final(rec).restart_count == old(rec).restart_count + 1
        } else {
            &&& step == WatchStep::Finished
            &&& final(rec).state == if code == 0 {
                ServiceState::Stopped
            } else {
                ServiceState::Failed
            }
            &&& final(rec).restart_count == old(rec).restart_count
        },
{
    rec.pid = None;
    rec.exit_code = Some(code);
    if should_restart(policy.strategy, code) && within_retries(policy.max_retries, rec.restart_count) {
        rec.state = ServiceState::Starting;
        rec.restart_count = rec.restart_count + 1;
        WatchStep::Respawn { delay_secs: policy.delay_secs }
    } else {
        rec.state = if code == 0 {
            ServiceState::Stopped
        } else {
            ServiceState::Failed
        };
        WatchStep::Finished
    }
}

/// Seconds from `started` to `now`, 0 if `started` is later.
pub open spec fn elapsed(started: i64, now: i64) -> u64 {
    if now <= started {
        0
    } else {
        (now - started) as u64
    }
}

/// Seconds from `started` to `now`, 0 if `started` is later.
pub fn elapsed_secs(started: i64, now: i64) -> (r: u64)
    ensures
        r == elapsed(started, now),
{
    if now <= started {
        0
    } else {
        ((now as i128) - (started as i128)) as u64
    }
}

/// The status that a record reports at time `now`.
pub open spec fn record_status(s: ServiceStatus, name: Seq<char>, rec: NativeRecord, now: i64) -> bool {
    &&& s.name@ == name
    &&& s.state == rec.state
    &&& s.pid == rec.pid
    &&& s.exit_code == rec.exit_code
    &&& s.started_at == rec.started_at
    &&& s.uptime_secs == match rec.started_at {
        Some(t) => Some(elapsed(t, now)),
        None => None,
    }
    &&& s.restart_count == rec.restart_count
    &&& s.health == HealthState::Unknown
    &&& s.backend@ == "native"@
    &&& s.memory_bytes is None
}

/// The status of service `name` from its record, at time `now`.
pub fn status_of_record(name: &str, rec: &NativeRecord, now: i64) -> (s: ServiceStatus)
    ensures
        record_status(s, name@, *rec, now),
{
    let uptime_secs = match rec.started_at {
        Some(t) => Some(elapsed_secs(t, now)),
        None => None,
    };
    ServiceStatus {
        name: name.to_owned(),
        state: rec.state,
        pid: rec.pid,
        exit_code: rec.exit_code,
        started_at: rec.started_at,
        uptime_secs,
        restart_count: rec.restart_count,
        health: HealthState::Unknown,
        backend: "native".to_owned(),
        memory_bytes: None,
    }
}

/// The status of service `name`: from its record if it has one; inactive if it is
/// only installed; otherwise not found.
pub fn native_status(name: &str, rec: Option<&NativeRecord>, installed: bool, now: i64) -> (r: Result<
    ServiceStatus,
    Error,
>)
    ensures
        match rec {
            Some(x) => r matches Ok(s) && record_status(s, name@, *x, now),
            None => if installed {
                r matches Ok(s) && bare_status(s, name@, ServiceState::Inactive, "native"@)
            } else {
                r matches Err(Error::ServiceNotFound(n)) && n@ == name@
            },
        },
{
    match rec {
        Some(x) => Ok(status_of_record(name, x, now)),
        None => if installed {
            Ok(ServiceStatus::new(name, ServiceState::Inactive, "native"))
        } else {
            Err(Error::ServiceNotFound(name.to_owned()))
        },
    }
}

/// The file that holds the spec of service `name` in `dir`.
pub fn spec_path(dir: &str, name: &str) -> (r: String)
    ensures
        r@ == path_join(dir@, name@ + ".yaml"@),
{
    let mut file = name.to_owned();
    file.append(".yaml");
    join_path(dir, file.as_str())
}

/// The service name of a spec file: its stem, when the extension (after the last `.`
/// that is not the first character) is `yaml`.
pub open spec fn yaml_stem(file: Seq<char>) -> Option<Seq<char>> {
    if file.len() >= 6 && file.skip(file.len() - 5) == ".yaml"@ {
        let stem = file.take(file.len() - 5);
        Some(stem)
    } else {
        None
    }
}

/// The service name of a spec file, if it is one.
pub fn spec_file_stem(file: &str) -> (r: Option<String>)
    ensures
        match r {
            Some(s) => yaml_stem(file@) == Some(s@),
            None => yaml_stem(file@) is None,
        },
{
    proof {
        reveal_strlit(".yaml");
    }
    let n = file.unicode_len();
    if n >= 6 && crate::text::has_suffix(file, ".yaml") {
        let stem = crate::text::string_of(file, 0, n - 5);
        assert(stem@ =~= file@.take(n - 5));
        Some(stem)
    } else {
        None
    }
}

/// Some status in `r` is named `n`.
pub open spec fn named_in(r: Seq<ServiceStatus>, n: Seq<char>) -> bool {
    exists|i: int| 0 <= i < r.len() && #[trigger] r[i].name@ == n
}

/// The statuses of all services: those with records, then the installed ones without.
pub fn list_statuses(records: &Vec<(String, NativeRecord)>, installed: &Vec<String>, now: i64) -> (r: Vec<
    ServiceStatus,
>)
    ensures
        r@.len() >= records@.len(),
        forall|i: int|
            0 <= i < records@.len() ==> record_status(#[trigger] r@[i], records@[i].0@, records@[i].1, now),
        forall|i: int|
            records@.len() <= i < r@.len() ==> bare_status(
                #[trigger] r@[i],
                r@[i].name@,
                ServiceState::Inactive,
                "native"@,
            ) && str_views(installed@).contains(r@[i].name@),
        forall|i: int, j: int| 0 <= i < j < r@.len() ==> r@[i].name@ != r@[j].name@ || j < records@.len(),
        forall|k: int| 0 <= k < installed@.len() ==> named_in(r@, #[trigger] installed@[k]@),
{
    let mut out: Vec<ServiceStatus> = Vec::new();
    let mut i: usize = 0;
    while i < records.len()
        invariant
            i <= records@.len(),
            out@.len() == i,
            forall|j: int| 0 <= j < i ==> record_status(#[trigger] out@[j], records@[j].0@, records@[j].1, now),
        decreases records@.len() - i,
    {
        out.push(status_of_record(records[i].0.as_str(), &records[i].1, now));
        i = i + 1;
    }
    let mut k: usize = 0;
    while k < installed.len()
        invariant
            k <= installed@.len(),
            out@.len() >= records@.len(),
            forall|j: int|
                0 <= j < records@.len() ==> record_status(#[trigger] out@[j], records@[j].0@, records@[j].1, now),
            forall|j: int|
                records@.len() <= j < out@.len() ==> bare_status(
                    #[trigger] out@[j],
                    out@[j].name@,
                    ServiceState::Inactive,
                    "native"@,
                ) && str_views(installed@).contains(out@[j].name@),
            forall|a: int, b: int| 0 <= a < b < out@.len() ==> out@[a].name@ != out@[b].name@ || b < records@.len(),
            forall|m: int| 0 <= m < k ==> named_in(out@, #[trigger] installed@[m]@),
        decreases installed@.len() - k,
    {
        let name = installed[k].as_str();
        let mut present = false;
        let mut j: usize = 0;
        while j < out.len()
            invariant
                j <= out@.len(),
                present ==> exists|q: int| 0 <= q < out@.len() && #[trigger] out@[q].name@ == name@,
                !present ==> forall|q: int| 0 <= q < j ==> out@[q].name@ != name@,
            decreases out@.len() - j,
        {
            if str_eq(out[j].name.as_str(), name) {
                present = true;
            }
            j = j + 1;
        }
        if !present {
            let ghost before = out@;
            out.push(ServiceStatus::new(name, ServiceState::Inactive, "native"));
            proof {
                assert(str_views(installed@)[k as int] == installed@[k as int]@);
                assert(out@[before.len() as int].name@ == installed@[k as int]@);
                assert forall|m: int| 0 <= m < k + 1 implies named_in(out@, #[trigger] installed@[m]@) by {
                    if m < k {
                        assert(named_in(before, installed@[m]@));
                        let q = choose|q: int| 0 <= q < before.len() && #[trigger] before[q].name@ == installed@[m]@;
                        assert(out@[q] == before[q]);
                    } else {
                        assert(out@[before.len() as int].name@ == installed@[m]@);
                    }
                }
            }
        } else {
            assert(str_views(installed@)[k as int] == installed@[k as int]@);
            assert forall|m: int| 0 <= m < k + 1 implies named_in(out@, #[trigger] installed@[m]@) by {
                if m == k {
                    assert(name@ == installed@[m]@);
                }
            }
        }
        k = k + 1;
    }
    out
}

/// The message when a service has no log file.
pub fn no_log_file_message(name: &str) -> (r: String)
    ensures
        r@ == "No log file configured for "@ + name@ + " \u{2014} set logging.stdout to a file path"@,
{
    let mut r = "No log file configured for ".to_owned();
    r.append(name);
    r.append(" \u{2014} set logging.stdout to a file path");
    r
}

} // verus!
