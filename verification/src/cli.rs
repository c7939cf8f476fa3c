//! The command line's decisions: what each command reports, and how listings and
//! checks read.  Reading files, calling backends and printing happen outside.
use vstd::prelude::*;

use crate::engine::registry::BackendRegistry;
use crate::error::{error_text, Error};
use crate::graph::{resolve_order, validate_references};
use crate::text::{dec_nat, push_u64, str_eq};
use crate::types::service_spec::{validation_failure, ServiceSpec};
use crate::types::service_status::{state_name, ServiceState, ServiceStatus};

verus! {

/// A command of the command line.
pub enum Command {
    /// Install a service from a YAML spec file.
    Install { spec: String },
    /// Uninstall a service.
    Uninstall { name: String },
    /// Start a service.
    Start { name: String },
    /// Stop a service.
    Stop { name: String },
    /// Restart a service.
    Restart { name: String },
    /// Reload a service's configuration.
    Reload { name: String },
    /// Show the status of one service, or of all.
    Status { name: Option<String> },
    /// Show a service's last log lines.
    Logs { name: String, lines: u32 },
    /// Enable a service to start on boot.
    Enable { name: String },
    /// Disable a service from starting on boot.
    Disable { name: String },
    /// List all managed services.
    List,
    /// Reload the init system's daemon configuration.
    DaemonReload,
    /// Validate service specs without installing them.
    Check { path: String },
    /// Show available backends.
    Backends,
    /// Run as daemon.
    Daemon,
}

/// What a command reports when it succeeded (`name` is the installed spec's name for
/// an install).
pub open spec fn done_text(c: Command, installed: Seq<char>) -> Option<Seq<char>> {
    match c {
        Command::Install { .. } => Some("Installed service '"@ + installed + "'"@),
        Command::Uninstall { name } => Some("Uninstalled service '"@ + name@ + "'"@),
        Command::Start { name } => Some("Started service '"@ + name@ + "'"@),
        Command::Stop { name } => Some("Stopped service '"@ + name@ + "'"@),
        Command::Restart { name } => Some("Restarted service '"@ + name@ + "'"@),
        Command::Reload { name } => Some("Reloaded service '"@ + name@ + "'"@),
        Command::Enable { name } => Some("Enabled service '"@ + name@ + "'"@),
        Command::Disable { name } => Some("Disabled service '"@ + name@ + "'"@),
        Command::DaemonReload => Some("Daemon configuration reloaded"@),
        _ => None,
    }
}

fn quoted(prefix: &str, name: &str) -> (r: String)
    ensures
        r@ == prefix@ + name@ + "'"@,
{
    let mut r = prefix.to_owned();
    r.append(name);
    r.append("'");
    r
}

/// What a command reports when it succeeded.
pub fn done_message(c: &Command, installed: &str) -> (r: Option<String>)
    ensures
        match (r, done_text(*c, installed@)) {
            (Some(m), Some(t)) => m@ == t,
            (None, None) => true,
            _ => false,
        },
{
    match c {
        Command::Install { .. } => Some(quoted("Installed service '", installed)),
        Command::Uninstall { name } => Some(quoted("Uninstalled service '", name.as_str())),
        Command::Start { name } => Some(quoted("Started service '", name.as_str())),
        Command::Stop { name } => Some(quoted("Stopped service '", name.as_str())),
        Command::Restart { name } => Some(quoted("Restarted service '", name.as_str())),
        Command::Reload { name } => Some(quoted("Reloaded service '", name.as_str())),
        Command::Enable { name } => Some(quoted("Enabled service '", name.as_str())),
        Command::Disable { name } => Some(quoted("Disabled service '", name.as_str())),
        Command::DaemonReload => Some("Daemon configuration reloaded".to_owned()),
        _ => None,
    }
}

/// The backend operation a command performs.
#[derive(Debug)]
pub enum BackendCall {
    /// Install the spec read from the file at `spec`.
    Install { spec: String },
    /// Uninstall a service.
    Uninstall { name: String },
    /// Start a service.
    Start { name: String },
    /// Stop a service.
    Stop { name: String },
    /// Restart a service.
    Restart { name: String },
    /// Reload a service's configuration.
    Reload { name: String },
    /// The status of one service.
    Status { name: String },
    /// The services, each shown as a status line.
    StatusAll,
    /// A service's last `lines` log lines.
    Logs { name: String, lines: u32 },
    /// Enable a service to start on boot.
    Enable { name: String },
    /// Disable a service from starting on boot.
    Disable { name: String },
    /// The services, shown as a table.
    List,
    /// Reload the init system's daemon configuration.
    DaemonReload,
}

/// The backend operation of a command; none for the commands that run without one
/// (checking specs, listing backends, running as a daemon).
pub open spec fn call_of(c: Command) -> Option<BackendCall> {
    match c {
        Command::Install { spec } => Some(BackendCall::Install { spec }),
        Command::Uninstall { name } => Some(BackendCall::Uninstall { name }),
        Command::Start { name } => Some(BackendCall::Start { name }),
        Command::Stop { name } => Some(BackendCall::Stop { name }),
        Command::Restart { name } => Some(BackendCall::Restart { name }),
        Command::Reload { name } => Some(BackendCall::Reload { name }),
        Command::Status { name: Some(name) } => Some(BackendCall::Status { name }),
        Command::Status { name: None } => Some(BackendCall::StatusAll),
        Command::Logs { name, lines } => Some(BackendCall::Logs { name, lines }),
        Command::Enable { name } => Some(BackendCall::Enable { name }),
        Command::Disable { name } => Some(BackendCall::Disable { name }),
        Command::List => Some(BackendCall::List),
        Command::DaemonReload => Some(BackendCall::DaemonReload),
        Command::Check { .. } => None,
        Command::Backends => None,
        Command::Daemon => None,
    }
}

/// The backend operation that a command performs, if it needs a backend.
pub fn backend_call(c: &Command) -> (r: Option<BackendCall>)
    ensures
        r == call_of(*c),
{
    match c {
        Command::Install { spec } => Some(BackendCall::Install { spec: spec.clone() }),
        Command::Uninstall { name } => Some(BackendCall::Uninstall { name: name.clone() }),
        Command::Start { name } => Some(BackendCall::Start { name: name.clone() }),
        Command::Stop { name } => Some(BackendCall::Stop { name: name.clone() }),
        Command::Restart { name } => Some(BackendCall::Restart { name: name.clone() }),
        Command::Reload { name } => Some(BackendCall::Reload { name: name.clone() }),
        Command::Status { name: Some(name) } => Some(BackendCall::Status { name: name.clone() }),
        Command::Status { name: None } => Some(BackendCall::StatusAll),
        Command::Logs { name, lines } => Some(BackendCall::Logs { name: name.clone(), lines: *lines }),
        Command::Enable { name } => Some(BackendCall::Enable { name: name.clone() }),
        Command::Disable { name } => Some(BackendCall::Disable { name: name.clone() }),
        Command::List => Some(BackendCall::List),
        Command::DaemonReload => Some(BackendCall::DaemonReload),
        Command::Check { .. } => None,
        Command::Backends => None,
        Command::Daemon => None,
    }
}

/// `n` spaces.
pub open spec fn spaces(n: nat) -> Seq<char>
    decreases n,
{
    if n == 0 {
        Seq::empty()
    } else {
        spaces((n - 1) as nat).push(' ')
    }
}

/// `s` padded with spaces on the right to `w` characters (`{:<w}`).
pub open spec fn pad(s: Seq<char>, w: nat) -> Seq<char> {
    if s.len() >= w {
        s
    } else {
        s + spaces((w - s.len()) as nat)
    }
}

/// Appends `s` padded on the right to `w` characters.
pub fn push_padded(out: &mut String, s: &str, w: usize)
    ensures
        final(out)@ == old(out)@ + pad(s@, w as nat),
{
    let ghost start = out@;
    out.append(s);
    let n = s.unicode_len();
    if n < w {
        let mut k: usize = n;
        assert(out@ =~= start + s@ + spaces(0));
        while k < w
            invariant
                n <= k <= w,
                n == s@.len(),
                out@ == start + s@ + spaces((k - n) as nat),
            decreases w - k,
        {
            out.append(" ");
            proof {
                reveal_strlit(" ");
                assert(spaces((k + 1 - n) as nat) == spaces((k - n) as nat).push(' '));
            }
            assert(out@ =~= start + s@ + spaces((k + 1 - n) as nat));
            k = k + 1;
        }
        assert(out@ =~= start + pad(s@, w as nat));
    } else {
        assert(out@ =~= start + pad(s@, w as nat));
    }
}

/// The listing's header line.
pub open spec fn list_header() -> Seq<char> {
    pad("NAME"@, 30) + " "@ + pad("STATE"@, 12) + " "@ + pad("PID"@, 8) + " "@ + "UPTIME"@
}

/// A listing row: name, state, PID (or `-`), uptime in seconds (or `-`).
pub open spec fn list_row(s: ServiceStatus) -> Seq<char> {
    pad(s.name@, 30) + " "@ + pad(state_name(s.state), 12) + " "@ + pad(
        match s.pid {
            Some(p) => dec_nat(p as nat),
            None => "-"@,
        },
        8,
    ) + " "@ + match s.uptime_secs {
        Some(u) => dec_nat(u as nat) + "s"@,
        None => "-"@,
    }
}

/// The lines that `list` prints.
pub open spec fn list_lines(services: Seq<ServiceStatus>) -> Seq<Seq<char>> {
    if services.len() == 0 {
        seq!["No managed services"@]
    } else {
        seq![list_header()] + services.map_values(|s: ServiceStatus| list_row(s))
    }
}

fn header_line() -> (r: String)
    ensures
        r@ == list_header(),
{
    let mut r = String::new();
    push_padded(&mut r, "NAME", 30);
    r.append(" ");
    push_padded(&mut r, "STATE", 12);
    r.append(" ");
    push_padded(&mut r, "PID", 8);
    r.append(" ");
    r.append("UPTIME");
    assert(r@ =~= list_header());
    r
}

fn row_line(s: &ServiceStatus) -> (r: String)
    ensures
        r@ == list_row(*s),
{
    let mut r = String::new();
    push_padded(&mut r, s.name.as_str(), 30);
    r.append(" ");
    let st = s.state.to_string();
    push_padded(&mut r, st.as_str(), 12);
    r.append(" ");
    let pid = match s.pid {
        Some(p) => crate::text::u64_text(p as u64),
        None => "-".to_owned(),
    };
    push_padded(&mut r, pid.as_str(), 8);
    r.append(" ");
    let ghost before = r@;
    match s.uptime_secs {
        Some(u) => {
            push_u64(&mut r, u);
            r.append("s");
        },
        None => r.append("-"),
    }
    assert(r@ =~= list_row(*s));
    r
}

/// The lines that `list` prints.
pub fn list_output(services: &Vec<ServiceStatus>) -> (r: Vec<String>)
    ensures
        r@.map_values(|x: String| x@) == list_lines(services@),
{
    let mut out: Vec<String> = Vec::new();
    if services.len() == 0 {
        out.push("No managed services".to_owned());
        assert(out@.map_values(|x: String| x@) =~= list_lines(services@));
        return out;
    }
    out.push(header_line());
    let mut i: usize = 0;
    while i < services.len()
        invariant
            i <= services@.len(),
            services@.len() > 0,
            out@.map_values(|x: String| x@) == seq![list_header()] + services@.take(i as int).map_values(
                |s: ServiceStatus| list_row(s),
            ),
        decreases services@.len() - i,
    {
        let ghost before = out@.map_values(|x: String| x@);
        let line = row_line(&services[i]);
        out.push(line);
        assert(out@.map_values(|x: String| x@) =~= before.push(list_row(services@[i as int])));
        assert(services@.take(i + 1).map_values(|s: ServiceStatus| list_row(s)) =~= services@.take(
            i as int,
        ).map_values(|s: ServiceStatus| list_row(s)).push(list_row(services@[i as int])));
        i = i + 1;
    }
    assert(services@.take(services@.len() as int) =~= services@);
    out
}

/// The variant name of a state, as `{:?}` prints it.
pub open spec fn state_debug_name(s: ServiceState) -> Seq<char> {
    match s {
        ServiceState::Inactive => "Inactive"@,
        ServiceState::Starting => "Starting"@,
        ServiceState::Running => "Running"@,
        ServiceState::Degraded => "Degraded"@,
        ServiceState::Reloading => "Reloading"@,
        ServiceState::Stopping => "Stopping"@,
        ServiceState::Stopped => "Stopped"@,
        ServiceState::Failed => "Failed"@,
        ServiceState::Unknown => "Unknown"@,
    }
}

/// A line of `status` without a name: the name padded to 30, then the state.
pub fn status_line(s: &ServiceStatus) -> (r: String)
    ensures
        r@ == pad(s.name@, 30) + " "@ + state_debug_name(s.state),
{
    let mut r = String::new();
    push_padded(&mut r, s.name.as_str(), 30);
    r.append(" ");
    r.append(
        match s.state {
            ServiceState::Inactive => "Inactive",
            ServiceState::Starting => "Starting",
            ServiceState::Running => "Running",
            ServiceState::Degraded => "Degraded",
            ServiceState::Reloading => "Reloading",
            ServiceState::Stopping => "Stopping",
            ServiceState::Stopped => "Stopped",
            ServiceState::Failed => "Failed",
            ServiceState::Unknown => "Unknown",
        },
    );
    r
}

/// A line of the backend listing: two spaces, the name, and ` (default)` for the default.
pub fn backend_line(name: &str, default: &str) -> (r: String)
    ensures
        r@ == "  "@ + name@ + if name@ == default@ {
            " (default)"@
        } else {
            Seq::empty()
        },
{
    let mut r = "  ".to_owned();
    r.append(name);
    if str_eq(name, default) {
        r.append(" (default)");
    }
    assert(r@ =~= "  "@ + name@ + if name@ == default@ {
        " (default)"@
    } else {
        Seq::empty()
    });
    r
}

/// The backend a command runs on: the one asked for, or the default.
pub fn select_backend<'a, B>(registry: &'a BackendRegistry<B>, requested: Option<&str>) -> (r: Result<&'a B, String>)
    ensures
        match requested {
            Some(name) => match r {
                Ok(b) => exists|i: int|
                    #![trigger registry.backend_at(i)]
                    0 <= i < registry.names().len() && registry.names()[i] == name@ && *b
                        == registry.backend_at(i),
                Err(m) => !registry.names().contains(name@) && m@ == "backend '"@ + name@
                    + "' not available"@,
            },
            None => match r {
                Ok(b) => exists|i: int|
                    #![trigger registry.backend_at(i)]
                    0 <= i < registry.names().len() && registry.names()[i] == registry.default_of()
                        && *b == registry.backend_at(i),
                Err(m) => !registry.names().contains(registry.default_of()) && m@
                    == "no backends available"@,
            },
        },
{
    match requested {
        Some(name) => match registry.get(name) {
            Some(b) => Ok(b),
            None => {
                let mut m = "backend '".to_owned();
                m.append(name);
                m.append("' not available");
                Err(m)
            },
        },
        None => match registry.default_backend() {
            Some(b) => Ok(b),
            None => Err("no backends available".to_owned()),
        },
    }
}

/// The failure of the daemon command.
pub fn daemon_unsupported() -> (r: String)
    ensures
        r@ == "daemon mode not yet implemented (requires shikumi config watcher)"@,
{
    "daemon mode not yet implemented (requires shikumi config watcher)".to_owned()
}

/// What checking one spec file reports: `Valid: <name>`, or the file and the problem.
pub fn check_file(path: &str, spec: &ServiceSpec) -> (r: Result<String, String>)
    ensures
        match validation_failure(*spec) {
            None => r matches Ok(m) && m@ == "Valid: "@ + spec.name@,
            Some(f) => r matches Err(m) && m@ == path@ + ": "@ + "config error: "@ + f,
        },
{
    match spec.validate() {
        Ok(()) => {
            let mut m = "Valid: ".to_owned();
            m.append(spec.name.as_str());
            Ok(m)
        },
        Err(e) => {
            let mut m = path.to_owned();
            m.append(": ");
            m.append(e.to_string().as_str());
            Err(m)
        },
    }
}


/// What checking a set of specs reports: their dependency references, then their
/// startup order.
pub fn check_set(specs: &[ServiceSpec]) -> (r: Result<String, String>)
    ensures
        match crate::graph::first_bad_ref(specs@, 0) {
            Some((name, dep)) => r matches Err(m) && m@ == "dependency error: "@ + "dependency error: "@
                + crate::graph::unknown_ref_message(name, dep),
            None => if crate::graph::has_cycle(specs@) {
                r matches Err(m) && exists|e: Error|
                    #![trigger crate::graph::resolution(specs@, Err(e))]
                    crate::graph::resolution(specs@, Err(e)) && m@ == "dependency cycle: "@ + error_text(e)
            } else {
                r matches Ok(m) && m@ == "Validated "@ + dec_nat(specs@.len()) + " specs, no errors"@
            },
        },
{
    match validate_references(specs) {
        Err(e) => {
            let mut m = "dependency error: ".to_owned();
            m.append(e.to_string().as_str());
            return Err(m);
        },
        Ok(()) => {},
    }
    let res = resolve_order(specs);
    match res {
        Err(e) => {
            let mut m = "dependency cycle: ".to_owned();
            let t = e.to_string();
            m.append(t.as_str());
            assert(crate::graph::resolution(specs@, Err(e)));
            Err(m)
        },
        Ok(_) => {
            let mut m = "Validated ".to_owned();
            push_u64(&mut m, specs.len() as u64);
            m.append(" specs, no errors");
            Ok(m)
        },
    }
}

} // verus!
