//! The supervisord backend: `[program:name]` sections and reading what
//! `supervisorctl` prints.
//!
//! Config files live in `~/.config/shihaisha/supervisord.d/`.
use vstd::prelude::*;

use crate::engine::systemd::{command_line, push_command_line};
use crate::error::Error;
use crate::render::{ends_line, opt_line, push_opt_line};
use crate::strmap::StrMap;
use crate::text::{
    contains_text, dec_int, dec_nat, first_match, has_text, join, join_path, join_strings, lines,
    lines_of, parse_u32, parse_unsigned, path_join, push_i64, push_u64, split_once, split_once_char,
    str_eq, str_views, string_of, strip_suffixes, trim, trim_suffixes, trimmed, words, words_of,
    find_text,
};
use crate::types::logging::LogTarget;
use crate::types::resource_limits::ResourceLimits;
use crate::types::service_spec::{RestartStrategy, ServiceSpec, ServiceType};
use crate::types::service_status::{HealthState, ServiceState, ServiceStatus};

verus! {

/// The supervisord backend's settings.
pub struct SupervisordBackend {
    /// Where program sections are written.
    pub config_dir: String,
    /// The `supervisorctl` program.
    pub supervisorctl: String,
}

impl SupervisordBackend {
    /// The backend for the given home directory.
    pub fn new(home: &str) -> (b: SupervisordBackend)
        ensures
            b.config_dir@ == path_join(path_join(path_join(home@, ".config"@), "shihaisha"@), "supervisord.d"@),
            b.supervisorctl@ == "supervisorctl"@,
    {
        let a = join_path(home, ".config");
        let b = join_path(a.as_str(), "shihaisha");
        let config_dir = join_path(b.as_str(), "supervisord.d");
        SupervisordBackend { config_dir, supervisorctl: "supervisorctl".to_owned() }
    }

    /// The path of the program section of service `name`.
    pub fn conf_path(&self, name: &str) -> (r: String)
        ensures
            r@ == path_join(self.config_dir@, name@ + ".conf"@),
    {
        let mut file = name.to_owned();
        file.append(".conf");
        join_path(self.config_dir.as_str(), file.as_str())
    }

    /// The backend's name.
    pub fn name(&self) -> (r: &'static str)
        ensures
            r@ == "supervisord"@,
    {
        "supervisord"
    }
}

/// Emits a native configuration for a spec.
pub trait ConfigEmitter {
    /// The native configuration of `spec`.
    fn emit(&self, spec: &ServiceSpec) -> Result<String, Error>;

    /// File extension of the native format.
    fn extension(&self) -> &'static str;

    /// Backend name.
    fn name(&self) -> &'static str;
}

impl ConfigEmitter for SupervisordBackend {
    fn emit(&self, spec: &ServiceSpec) -> (r: Result<String, Error>)
        ensures
            r matches Ok(c) && c@ == conf_text(*spec),
    {
        Ok(spec_to_conf(spec))
    }

    fn extension(&self) -> (r: &'static str)
        ensures
            r@ == "conf"@,
    {
        "conf"
    }

    fn name(&self) -> (r: &'static str)
        ensures
            r@ == "supervisord"@,
    {
        "supervisord"
    }
}

// ---------------------------------------------------------------------------
// Program sections
// ---------------------------------------------------------------------------

/// The `autorestart=` word of a restart strategy.
pub open spec fn autorestart_word(s: RestartStrategy) -> Seq<char> {
    match s {
        RestartStrategy::Always => "true"@,
        RestartStrategy::OnFailure => "unexpected"@,
        RestartStrategy::OnSuccess => "false"@,
        RestartStrategy::Never => "false"@,
    }
}

/// `key="value"` for each pair.
pub open spec fn env_entries(ps: Seq<(Seq<char>, Seq<char>)>) -> Seq<Seq<char>> {
    ps.map_values(|p: (Seq<char>, Seq<char>)| p.0 + "=\""@ + p.1 + "\""@)
}

/// The `environment=` line, when there are variables.
pub open spec fn env_line(ps: Seq<(Seq<char>, Seq<char>)>) -> Seq<char> {
    if ps.len() == 0 {
        Seq::empty()
    } else {
        "environment="@ + join(env_entries(ps), ","@) + "\n"@
    }
}

/// The stdout line of a log target.
pub open spec fn stdout_line(t: LogTarget) -> Seq<char> {
    match t {
        LogTarget::File(p) => "stdout_logfile="@ + p@ + "\n"@,
        LogTarget::Null => "stdout_logfile=/dev/null\n"@,
        LogTarget::Journal => "stdout_logfile=AUTO\n"@,
        LogTarget::Inherit => "stdout_logfile=AUTO\n"@,
    }
}

/// The stderr line of a log target.
pub open spec fn stderr_line(t: LogTarget) -> Seq<char> {
    match t {
        LogTarget::File(p) => "stderr_logfile="@ + p@ + "\n"@,
        LogTarget::Null => "stderr_logfile=/dev/null\n"@,
        LogTarget::Journal => "redirect_stderr=true\n"@,
        LogTarget::Inherit => "redirect_stderr=true\n"@,
    }
}

/// The `priority=` line: 999 plus the nice value, when one is set.
pub open spec fn priority_line(res: Option<ResourceLimits>) -> Seq<char> {
    match res {
        Some(r) => match r.nice {
            Some(n) => "priority="@ + dec_int(999 + n.val()) + "\n"@,
            None => Seq::empty(),
        },
        None => Seq::empty(),
    }
}

/// The supervisord program section of a spec.
pub open spec fn conf_text(spec: ServiceSpec) -> Seq<char> {
    "[program:"@ + spec.name@ + "]\n"@ + "command="@ + command_line(spec.command@, str_views(spec.args@))
        + "\n"@ + "autostart="@ + (if spec.service_type == ServiceType::Oneshot {
        "false"@
    } else {
        "true"@
    }) + "\n"@ + "autorestart="@ + autorestart_word(spec.restart.strategy) + "\n"@ + "startsecs="@
        + dec_nat(spec.restart.delay_secs as nat) + "\n"@ + "startretries="@ + dec_nat(
        if spec.restart.max_retries == 0 {
            3
        } else {
            spec.restart.max_retries as nat
        },
    ) + "\n"@ + "stopwaitsecs="@ + dec_nat(spec.timeout_stop_sec as nat) + "\n"@ + opt_line(
        "directory="@,
        spec.working_directory,
    ) + opt_line("user="@, spec.user) + env_line(spec.environment.pairs()) + stdout_line(
        spec.logging.stdout,
    ) + stderr_line(spec.logging.stderr) + priority_line(spec.resources)
}

/// A program section begins with its name and settings, one line each: the command line
/// (command, then the arguments), `autostart` true unless the service runs once,
/// `autorestart` true for `Always`, `unexpected` for `OnFailure` and false otherwise,
/// `startsecs` the restart delay, `startretries` the retry limit (3 when unlimited),
/// `stopwaitsecs` the stop timeout, then the directory and user when set.
pub proof fn lemma_conf_head(spec: ServiceSpec)
    ensures
        ("[program:"@ + spec.name@ + "]\n"@ + "command="@ + command_line(
                spec.command@,
                str_views(spec.args@),
            ) + "\n"@ + "autostart="@ + (if spec.service_type == ServiceType::Oneshot {
                "false"@
            } else {
                "true"@
            }) + "\n"@ + "autorestart="@ + (match spec.restart.strategy {
                RestartStrategy::Always => "true"@,
                RestartStrategy::OnFailure => "unexpected"@,
                RestartStrategy::OnSuccess | RestartStrategy::Never => "false"@,
            }) + "\n"@ + "startsecs="@ + dec_nat(spec.restart.delay_secs as nat) + "\n"@ + "startretries="@
                + dec_nat(if spec.restart.max_retries == 0 {
                3
            } else {
                spec.restart.max_retries as nat
            }) + "\n"@ + "stopwaitsecs="@ + dec_nat(spec.timeout_stop_sec as nat) + "\n"@ + (match spec.working_directory {
                Some(w) => "directory="@ + w@ + "\n"@,
                None => Seq::empty(),
            }) + (match spec.user {
                Some(u) => "user="@ + u@ + "\n"@,
                None => Seq::empty(),
            })).is_prefix_of(conf_text(spec)),
{
    let c = conf_text(spec);
    let rest = env_line(spec.environment.pairs()) + stdout_line(spec.logging.stdout) + stderr_line(
        spec.logging.stderr,
    ) + priority_line(spec.resources);
    let k = c.len() - rest.len();
    assert(c =~= c.take(k) + rest);
    assert(c.take(k) =~= c.subrange(0, k));
}

/// A program section closes with its environment line (`key="value"` per variable,
/// separated by commas; none without variables), its log lines and its priority: stdout goes to
/// supervisord's own log (`AUTO`) for the journal or an inherited stream, to
/// `/dev/null` or to the named file; stderr is merged into the stdout log
/// (`redirect_stderr=true`) for the journal or an inherited stream, and otherwise goes
/// to `/dev/null` or to the named file; a nice value gives `priority=` 999 plus it.
pub proof fn lemma_conf_log_lines(spec: ServiceSpec)
    ensures
        exists|pre: Seq<char>|
            conf_text(spec) == pre + (if spec.environment.pairs().len() == 0 {
                Seq::empty()
            } else {
                "environment="@ + join(env_entries(spec.environment.pairs()), ","@) + "\n"@
            }) + (match spec.logging.stdout {
                LogTarget::File(p) => "stdout_logfile="@ + p@ + "\n"@,
                LogTarget::Null => "stdout_logfile=/dev/null\n"@,
                LogTarget::Journal | LogTarget::Inherit => "stdout_logfile=AUTO\n"@,
            }) + (match spec.logging.stderr {
                LogTarget::File(p) => "stderr_logfile="@ + p@ + "\n"@,
                LogTarget::Null => "stderr_logfile=/dev/null\n"@,
                LogTarget::Journal | LogTarget::Inherit => "redirect_stderr=true\n"@,
            }) + (match spec.resources {
                Some(r) => match r.nice {
                    Some(n) => "priority="@ + dec_int(999 + n.val()) + "\n"@,
                    None => Seq::empty(),
                },
                None => Seq::empty(),
            }) && pre.len() > 0 && pre.last() == '\n',
{
    reveal_strlit("\n");
    let c = conf_text(spec);
    let a = stdout_line(spec.logging.stdout);
    let b = stderr_line(spec.logging.stderr);
    let d = priority_line(spec.resources);
    let ev = env_line(spec.environment.pairs());
    let k = c.len() - (ev.len() + a.len() + b.len() + d.len());
    let pre = c.take(k);
    let od = opt_line("directory="@, spec.working_directory);
    let ou = opt_line("user="@, spec.user);
    assert(ends_line(od) && ends_line(ou));
    assert(c =~= pre + ev + a + b + d);
    assert(pre.len() > 0 && pre.last() == '\n');
}

fn push_env_line(out: &mut String, env: &StrMap<String>)
    ensures
        final(out)@ == old(out)@ + env_line(env.pairs()),
{
    let ghost before = out@;
    let n = env.len();
    if n > 0 {
        let mut entries: Vec<String> = Vec::new();
        let mut i: usize = 0;
        while i < n
            invariant
                n == env.pairs().len(),
                i <= n,
                str_views(entries@) == env_entries(env.pairs().take(i as int)),
            decreases n - i,
        {
            let mut e = env.key_at(i).clone();
            e.append("=\"");
            e.append(env.value_at(i).as_str());
            e.append("\"");
            let ghost prev = str_views(entries@);
            entries.push(e);
            assert(str_views(entries@) =~= env_entries(env.pairs().take(i + 1))) by {
                assert(env_entries(env.pairs().take(i + 1)) =~= prev.push(e@));
            }
            i = i + 1;
        }
        assert(env.pairs().take(n as int) =~= env.pairs());
        out.append("environment=");
        out.append(join_strings(&entries, ",").as_str());
        out.append("\n");
    }
    assert(out@ =~= before + env_line(env.pairs()));
}

fn push_stdout_line(out: &mut String, t: &LogTarget)
    ensures
        final(out)@ == old(out)@ + stdout_line(*t),
{
    let ghost before = out@;
    match t {
        LogTarget::File(p) => {
            out.append("stdout_logfile=");
            out.append(p.as_str());
            out.append("\n");
        },
        LogTarget::Null => out.append("stdout_logfile=/dev/null\n"),
        LogTarget::Journal => out.append("stdout_logfile=AUTO\n"),
        LogTarget::Inherit => out.append("stdout_logfile=AUTO\n"),
    }
    assert(out@ =~= before + stdout_line(*t));
}

fn push_stderr_line(out: &mut String, t: &LogTarget)
    ensures
        final(out)@ == old(out)@ + stderr_line(*t),
{
    let ghost before = out@;
    match t {
        LogTarget::File(p) => {
            out.append("stderr_logfile=");
            out.append(p.as_str());
            out.append("\n");
        },
        LogTarget::Null => out.append("stderr_logfile=/dev/null\n"),
        LogTarget::Journal => out.append("redirect_stderr=true\n"),
        LogTarget::Inherit => out.append("redirect_stderr=true\n"),
    }
    assert(out@ =~= before + stderr_line(*t));
}

fn push_priority_line(out: &mut String, res: &Option<ResourceLimits>)
    ensures
        final(out)@ == old(out)@ + priority_line(*res),
{
    let ghost before = out@;
    if let Some(r) = res {
        if let Some(n) = &r.nice {
            let v = n.value();
            out.append("priority=");
            push_i64(out, 999i64 + v as i64);
            out.append("\n");
        }
    }
    assert(out@ =~= before + priority_line(*res));
}

/// The supervisord program section of a spec.
pub fn spec_to_conf(spec: &ServiceSpec) -> (conf: String)
    ensures
        conf@ == conf_text(*spec),
{
    let mut conf = String::new();
    conf.append("[program:");
    conf.append(spec.name.as_str());
    conf.append("]\n");
    conf.append("command=");
    push_command_line(&mut conf, &spec.command, &spec.args);
    conf.append("\n");
    conf.append("autostart=");
    let oneshot = match spec.service_type {
        ServiceType::Oneshot => true,
        _ => false,
    };
    conf.append(if oneshot { "false" } else { "true" });
    conf.append("\n");
    conf.append("autorestart=");
    conf.append(
        match spec.restart.strategy {
            RestartStrategy::Always => "true",
            RestartStrategy::OnFailure => "unexpected",
            RestartStrategy::OnSuccess => "false",
            RestartStrategy::Never => "false",
        },
    );
    conf.append("\n");
    conf.append("startsecs=");
    push_u64(&mut conf, spec.restart.delay_secs);
    conf.append("\n");
    conf.append("startretries=");
    let retries: u64 = if spec.restart.max_retries == 0 {
        3
    } else {
        spec.restart.max_retries as u64
    };
    push_u64(&mut conf, retries);
    conf.append("\n");
    conf.append("stopwaitsecs=");
    push_u64(&mut conf, spec.timeout_stop_sec);
    conf.append("\n");
    push_opt_line(&mut conf, "directory=", &spec.working_directory);
    push_opt_line(&mut conf, "user=", &spec.user);
    push_env_line(&mut conf, &spec.environment);
    push_stdout_line(&mut conf, &spec.logging.stdout);
    push_stderr_line(&mut conf, &spec.logging.stderr);
    push_priority_line(&mut conf, &spec.resources);
    assert(conf@ =~= conf_text(*spec));
    conf
}

// ---------------------------------------------------------------------------
// Reading `supervisorctl`
// ---------------------------------------------------------------------------

/// The state that a `supervisorctl status` line reports, by the first state word it
/// contains.
pub open spec fn supervisord_state(text: Seq<char>) -> ServiceState {
    if contains_text(text, "RUNNING"@) {
        ServiceState::Running
    } else if contains_text(text, "STOPPED"@) {
        ServiceState::Stopped
    } else if contains_text(text, "STARTING"@) {
        ServiceState::Starting
    } else if contains_text(text, "FATAL"@) || contains_text(text, "BACKOFF"@) {
        ServiceState::Failed
    } else {
        ServiceState::Unknown
    }
}

/// Reads the state from a `supervisorctl status` line.
pub fn parse_supervisord_state(text: &str) -> (r: ServiceState)
    ensures
        r == supervisord_state(text@),
{
    if has_text(text, "RUNNING") {
        ServiceState::Running
    } else if has_text(text, "STOPPED") {
        ServiceState::Stopped
    } else if has_text(text, "STARTING") {
        ServiceState::Starting
    } else if has_text(text, "FATAL") || has_text(text, "BACKOFF") {
        ServiceState::Failed
    } else {
        ServiceState::Unknown
    }
}

/// The text after the first `pid `, up to the next `pid ` and then the first comma,
/// trimmed.
pub open spec fn pid_field(text: Seq<char>) -> Option<Seq<char>> {
    match first_match(text, "pid "@) {
        None => None,
        Some(i) => {
            let rest = text.skip(i + 4);
            let piece = match first_match(rest, "pid "@) {
                Some(j) => rest.take(j),
                None => rest,
            };
            let field = match split_once(piece, ',') {
                Some((a, b)) => a,
                None => piece,
            };
            Some(trim(field))
        },
    }
}

/// The PID that a `supervisorctl status` line reports (`pid NNNN,`).
pub open spec fn supervisord_pid(text: Seq<char>) -> Option<u32> {
    match pid_field(text) {
        Some(f) => match parse_unsigned(f, u32::MAX as nat) {
            Some(x) => Some(x as u32),
            None => None,
        },
        None => None,
    }
}

/// Reads the PID from a `supervisorctl status` line.
pub fn parse_supervisord_pid(text: &str) -> (r: Option<u32>)
    ensures
        r == supervisord_pid(text@),
{
    proof {
        reveal_strlit("pid ");
    }
    let n = text.unicode_len();
    match find_text(text, "pid ") {
        None => None,
        Some(i) => {
            let rest = string_of(text, i + 4, n);
            assert(rest@ =~= text@.skip(i + 4));
            let found = find_text(rest.as_str(), "pid ");
            let piece = match found {
                Some(j) => string_of(rest.as_str(), 0, j),
                None => rest.clone(),
            };
            proof {
                match found {
                    Some(j) => {
                        assert(first_match(rest@, "pid "@) == Some(j as int));
                        assert(piece@ =~= rest@.take(j as int));
                    },
                    None => {
                        assert(first_match(rest@, "pid "@) is None);
                    },
                }
            }
            let field = match split_once_char(piece.as_str(), ',') {
                Some((a, b)) => a,
                None => piece.clone(),
            };
            assert(field@ == match split_once(piece@, ',') {
                Some((x, y)) => x,
                None => piece@,
            });
            let t = trimmed(field.as_str());
            let r = parse_u32(t.as_str());
            assert(pid_field(text@) == Some(t@));
            r
        },
    }
}

/// The status of service `name` from the output of `supervisorctl status name`.
pub fn status_from_output(name: &str, output: &str) -> (s: ServiceStatus)
    ensures
        s.name@ == name@,
        s.state == supervisord_state(output@),
        s.pid == supervisord_pid(output@),
        s.exit_code is None,
        s.started_at is None,
        s.uptime_secs is None,
        s.restart_count == 0,
        s.health == HealthState::Unknown,
        s.backend@ == "supervisord"@,
        s.memory_bytes is None,
{
    ServiceStatus {
        name: name.to_owned(),
        state: parse_supervisord_state(output),
        pid: parse_supervisord_pid(output),
        exit_code: None,
        started_at: None,
        uptime_secs: None,
        restart_count: 0,
        health: HealthState::Unknown,
        backend: "supervisord".to_owned(),
        memory_bytes: None,
    }
}

/// The state that a status word of `supervisorctl status` denotes.
pub open spec fn state_word(w: Seq<char>) -> ServiceState {
    if w == "RUNNING"@ {
        ServiceState::Running
    } else if w == "STOPPED"@ {
        ServiceState::Stopped
    } else if w == "STARTING"@ {
        ServiceState::Starting
    } else if w == "FATAL"@ || w == "BACKOFF"@ {
        ServiceState::Failed
    } else {
        ServiceState::Unknown
    }
}

/// Position of the first word `w` in `parts` at or after `i`.
pub open spec fn word_pos(parts: Seq<Seq<char>>, w: Seq<char>, i: int) -> Option<int>
    decreases parts.len() - i,
{
    if i < 0 || i >= parts.len() {
        None
    } else if parts[i] == w {
        Some(i)
    } else {
        word_pos(parts, w, i + 1)
    }
}

/// The PID after the word `pid` (trailing commas dropped), if any.
pub open spec fn listed_pid(parts: Seq<Seq<char>>) -> Option<u32> {
    match word_pos(parts, "pid"@, 0) {
        Some(i) => if i + 1 < parts.len() {
            match parse_unsigned(strip_suffixes(parts[i + 1], ","@), u32::MAX as nat) {
                Some(x) => Some(x as u32),
                None => None,
            }
        } else {
            None
        },
        None => None,
    }
}

/// The programs that `supervisorctl status` lists: each line of at least two words
/// names a program, its state word, and perhaps a PID.
pub open spec fn listed_programs(lines: Seq<Seq<char>>) -> Seq<(Seq<char>, ServiceState, Option<u32>)>
    decreases lines.len(),
{
    if lines.len() == 0 {
        Seq::empty()
    } else {
        let rest = listed_programs(lines.drop_last());
        let parts = words_of(lines.last());
        if parts.len() >= 2 {
            rest.push((parts[0], state_word(parts[1]), listed_pid(parts)))
        } else {
            rest
        }
    }
}

fn state_of_word(w: &str) -> (r: ServiceState)
    ensures
        r == state_word(w@),
{
    if str_eq(w, "RUNNING") {
        ServiceState::Running
    } else if str_eq(w, "STOPPED") {
        ServiceState::Stopped
    } else if str_eq(w, "STARTING") {
        ServiceState::Starting
    } else if str_eq(w, "FATAL") || str_eq(w, "BACKOFF") {
        ServiceState::Failed
    } else {
        ServiceState::Unknown
    }
}

fn pid_of_words(parts: &Vec<String>) -> (r: Option<u32>)
    ensures
        r == listed_pid(str_views(parts@)),
{
    let ghost pv = str_views(parts@);
    let mut i: usize = 0;
    while i < parts.len()
        invariant
            pv == str_views(parts@),
            i <= parts@.len(),
            word_pos(pv, "pid"@, 0) == word_pos(pv, "pid"@, i as int),
        decreases parts@.len() - i,
    {
        if str_eq(parts[i].as_str(), "pid") {
            if i + 1 < parts.len() {
                let t = trim_suffixes(parts[i + 1].as_str(), ",");
                return parse_u32(t.as_str());
            } else {
                return None;
            }
        }
        i = i + 1;
    }
    None
}

/// The programs listed by `supervisorctl status`.
pub fn parse_status_list(output: &str) -> (r: Vec<ServiceStatus>)
    ensures
        r@.len() == listed_programs(lines_of(output@)).len(),
        forall|i: int|
            0 <= i < r@.len() ==> {
                let e = #[trigger] listed_programs(lines_of(output@))[i];
                &&& r@[i].name@ == e.0
                &&& r@[i].state == e.1
                &&& r@[i].pid == e.2
                &&& r@[i].exit_code is None
                &&& r@[i].started_at is None
                &&& r@[i].uptime_secs is None
                &&& r@[i].restart_count == 0
                &&& r@[i].health == HealthState::Unknown
                &&& r@[i].backend@ == "supervisord"@
                &&& r@[i].memory_bytes is None
            },
{
    let ls = lines(output);
    let ghost lv = ls@.map_values(|x: String| x@);
    let mut out: Vec<ServiceStatus> = Vec::new();
    let mut i: usize = 0;
    assert(lv.take(0) =~= Seq::<Seq<char>>::empty());
    while i < ls.len()
        invariant
            lv == ls@.map_values(|x: String| x@),
            i <= ls@.len(),
            out@.len() == listed_programs(lv.take(i as int)).len(),
            forall|j: int|
                0 <= j < out@.len() ==> {
                    let e = #[trigger] listed_programs(lv.take(i as int))[j];
                    &&& out@[j].name@ == e.0
                    &&& out@[j].state == e.1
                    &&& out@[j].pid == e.2
                    &&& out@[j].exit_code is None
                    &&& out@[j].started_at is None
                    &&& out@[j].uptime_secs is None
                    &&& out@[j].restart_count == 0
                    &&& out@[j].health == HealthState::Unknown
                    &&& out@[j].backend@ == "supervisord"@
                    &&& out@[j].memory_bytes is None
                },
        decreases ls@.len() - i,
    {
        assert(lv.take(i + 1).drop_last() =~= lv.take(i as int));
        assert(lv.take(i + 1).last() == ls@[i as int]@);
        let parts = words(ls[i].as_str());
        if parts.len() >= 2 {
            let st = ServiceStatus {
                name: parts[0].clone(),
                state: state_of_word(parts[1].as_str()),
                pid: pid_of_words(&parts),
                exit_code: None,
                started_at: None,
                uptime_secs: None,
                restart_count: 0,
                health: HealthState::Unknown,
                backend: "supervisord".to_owned(),
                memory_bytes: None,
            };
            out.push(st);
        }
        i = i + 1;
    }
    assert(lv.take(ls@.len() as int) =~= lv);
    out
}

} // verus!
