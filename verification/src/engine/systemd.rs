//! The systemd backend: unit files, `systemctl` arguments, and reading what
//! `systemctl` prints.
//!
//! Operates in user mode (`--user`) when not root, in system mode otherwise.
//! Unit files live in `~/.config/systemd/user/` or `/etc/systemd/system/`.
use vstd::prelude::*;
use vstd::seq_lib::lemma_concat_associative;

use crate::merge::section;
use crate::render::{
    each_line, ends_line, lemma_each_line_at, lemma_each_line_last, lemma_ends_line_add, opt_line,
    pair_lines, push_each, push_opt_line, push_pairs, push_section,
};
use crate::strmap::{insert_pair, lookup, StrMap};
use crate::text::{
    dec_int, dec_nat, join, join_path, join_strings, lemma_dec_nat_digits, lemma_parse_dec_nat, lines,
    lines_of, parse_i32, parse_signed, parse_u32, parse_u64, parse_unsigned, path_join, push_i64,
    push_u64, split_once, split_once_char, str_eq, str_views, strip_suffixes, trim_suffixes, words,
    words_of,
};
use crate::types::logging::LogTarget;
use crate::types::resource_limits::{MemorySize, NiceValue, ResourceLimits, Weight};
use crate::types::service_spec::{RestartStrategy, ServiceSpec, ServiceType};
use crate::types::service_status::{bare_status, HealthState, ServiceState, ServiceStatus};

verus! {

/// The systemd backend's settings.
pub struct SystemdBackend {
    /// Whether `systemctl` runs with `--user`.
    pub user_mode: bool,
    /// Where unit files are written.
    pub unit_dir: String,
}

impl SystemdBackend {
    /// The backend for a process that is root or not, with the given home directory.
    pub fn new(is_root: bool, home: &str) -> (b: SystemdBackend)
        ensures
            b.user_mode == !is_root,
            b.unit_dir@ == if is_root {
                "/etc/systemd/system"@
            } else {
                path_join(home@, ".config/systemd/user"@)
            },
    {
        let user_mode = !is_root;
        let unit_dir = if user_mode {
            join_path(home, ".config/systemd/user")
        } else {
            "/etc/systemd/system".to_owned()
        };
        SystemdBackend { user_mode, unit_dir }
    }

    /// The arguments every `systemctl` call starts with.
    pub fn systemctl_base_args(&self) -> (r: Vec<String>)
        ensures
            str_views(r@) == if self.user_mode {
                seq!["--user"@]
            } else {
                Seq::<Seq<char>>::empty()
            },
    {
        let mut r: Vec<String> = Vec::new();
        if self.user_mode {
            r.push("--user".to_owned());
        }
        assert(str_views(r@) =~= if self.user_mode {
            seq!["--user"@]
        } else {
            Seq::<Seq<char>>::empty()
        });
        r
    }

    /// The path of the unit file of service `name`.
    pub fn unit_path(&self, name: &str) -> (r: String)
        ensures
            r@ == path_join(self.unit_dir@, name@ + ".service"@),
    {
        join_path(self.unit_dir.as_str(), unit_name(name).as_str())
    }

    /// The arguments of `journalctl` for the last `lines` lines of service `name`.
    pub fn journal_args(&self, name: &str, lines: u32) -> (r: Vec<String>)
        ensures
            str_views(r@) == (if self.user_mode {
                seq!["--user"@]
            } else {
                Seq::<Seq<char>>::empty()
            }) + seq!["-u"@, name@ + ".service"@, "-n"@, dec_nat(lines as nat), "--no-pager"@],
    {
        let mut r = self.systemctl_base_args();
        let ghost base = str_views(r@);
        r.push("-u".to_owned());
        r.push(unit_name(name));
        r.push("-n".to_owned());
        r.push(crate::text::u64_text(lines as u64));
        r.push("--no-pager".to_owned());
        assert(str_views(r@) =~= base + seq!["-u"@, name@ + ".service"@, "-n"@, dec_nat(lines as nat), "--no-pager"@]);
        r
    }
}

/// The unit name of service `name`.
pub fn unit_name(name: &str) -> (r: String)
    ensures
        r@ == name@ + ".service"@,
{
    let mut r = name.to_owned();
    r.append(".service");
    r
}

/// The properties that `status` asks `systemctl show` for.
pub fn show_property_arg() -> (r: String)
    ensures
        r@ == "--property=ActiveState,SubState,MainPID,ExecMainStatus,ActiveEnterTimestamp,NRestarts,MemoryCurrent"@,
{
    "--property=ActiveState,SubState,MainPID,ExecMainStatus,ActiveEnterTimestamp,NRestarts,MemoryCurrent".to_owned()
}

// ---------------------------------------------------------------------------
// Unit files
// ---------------------------------------------------------------------------

/// The `Type=` word of a service type.
pub open spec fn systemd_type_word(t: ServiceType) -> Seq<char> {
    match t {
        ServiceType::Simple => "simple"@,
        ServiceType::Oneshot => "oneshot"@,
        ServiceType::Notify => "notify"@,
        ServiceType::Forking => "forking"@,
        ServiceType::Timer => "simple"@,
        ServiceType::Socket => "simple"@,
    }
}

/// The `Restart=` word of a restart strategy.
pub open spec fn systemd_restart_word(s: RestartStrategy) -> Seq<char> {
    match s {
        RestartStrategy::Always => "always"@,
        RestartStrategy::OnFailure => "on-failure"@,
        RestartStrategy::OnSuccess => "on-success"@,
        RestartStrategy::Never => "no"@,
    }
}

/// The command line: the command, then the arguments separated by spaces.
pub open spec fn command_line(command: Seq<char>, args: Seq<Seq<char>>) -> Seq<char> {
    if args.len() == 0 {
        command
    } else {
        command + " "@ + join(args, " "@)
    }
}

/// The `StandardOutput=`/`StandardError=` line of a log target (none for the journal).
pub open spec fn log_line(key: Seq<char>, t: LogTarget) -> Seq<char> {
    match t {
        LogTarget::Journal => Seq::empty(),
        LogTarget::File(p) => key + "file:"@ + p@ + "\n"@,
        LogTarget::Null => key + "null\n"@,
        LogTarget::Inherit => key + "inherit\n"@,
    }
}

/// `key + size + "\n"` for a present memory size.
pub open spec fn memory_line(key: Seq<char>, m: Option<MemorySize>) -> Seq<char> {
    match m {
        Some(x) => key + x.text() + "\n"@,
        None => Seq::empty(),
    }
}

/// `key + weight + "\n"` for a present weight.
pub open spec fn weight_line(key: Seq<char>, w: Option<Weight>) -> Seq<char> {
    match w {
        Some(x) => key + dec_nat(x.val()) + "\n"@,
        None => Seq::empty(),
    }
}

/// `key + number + "\n"` for a present number.
pub open spec fn number_line(key: Seq<char>, n: Option<u64>) -> Seq<char> {
    match n {
        Some(x) => key + dec_nat(x as nat) + "\n"@,
        None => Seq::empty(),
    }
}

/// `key + nice + "\n"` for a present nice value.
pub open spec fn nice_line(key: Seq<char>, n: Option<NiceValue>) -> Seq<char> {
    match n {
        Some(x) => key + dec_int(x.val()) + "\n"@,
        None => Seq::empty(),
    }
}

/// The resource limit lines of a unit.
pub open spec fn resource_lines(res: Option<ResourceLimits>) -> Seq<char> {
    match res {
        None => Seq::empty(),
        Some(r) => memory_line("MemoryMax="@, r.memory_max) + memory_line("MemoryHigh="@, r.memory_high)
            + weight_line("CPUWeight="@, r.cpu_weight) + opt_line("CPUQuota="@, r.cpu_quota) + number_line(
            "TasksMax="@,
            r.tasks_max,
        ) + weight_line("IOWeight="@, r.io_weight) + nice_line("Nice="@, r.nice),
    }
}

/// The systemd unit file of a spec.
pub open spec fn unit_file(spec: ServiceSpec) -> Seq<char> {
    let d = spec.depends_on;
    let sections = spec.overrides.systemd.pairs();
    "[Unit]\n"@ + "Description="@ + spec.description@ + "\n"@ + each_line(
        str_views(d.after@),
        "After="@,
        ".service\n"@,
    ) + each_line(str_views(d.before@), "Before="@, ".service\n"@) + each_line(
        str_views(d.requires@),
        "Requires="@,
        ".service\n"@,
    ) + each_line(str_views(d.wants@), "Wants="@, ".service\n"@) + each_line(
        str_views(d.conflicts@),
        "Conflicts="@,
        ".service\n"@,
    ) + pair_lines(section(sections, "Unit"@), ""@, "="@, "\n"@) + "\n"@ + "[Service]\n"@ + "Type="@
        + systemd_type_word(spec.service_type) + "\n"@ + "ExecStart="@ + command_line(
        spec.command@,
        str_views(spec.args@),
    ) + "\n"@ + "Restart="@ + systemd_restart_word(spec.restart.strategy) + "\n"@ + "RestartSec="@
        + dec_nat(spec.restart.delay_secs as nat) + "\n"@ + opt_line(
        "WorkingDirectory="@,
        spec.working_directory,
    ) + opt_line("User="@, spec.user) + opt_line("Group="@, spec.group) + pair_lines(
        spec.environment.pairs(),
        "Environment=\""@,
        "="@,
        "\"\n"@,
    ) + log_line("StandardOutput="@, spec.logging.stdout) + log_line(
        "StandardError="@,
        spec.logging.stderr,
    ) + (if spec.notify {
        "NotifyAccess=main\n"@
    } else {
        Seq::empty()
    }) + (if spec.watchdog_sec > 0 {
        "WatchdogSec="@ + dec_nat(spec.watchdog_sec as nat) + "\n"@
    } else {
        Seq::empty()
    }) + "TimeoutStartSec="@ + dec_nat(spec.timeout_start_sec as nat) + "\n"@ + "TimeoutStopSec="@
        + dec_nat(spec.timeout_stop_sec as nat) + "\n"@ + resource_lines(spec.resources) + pair_lines(
        section(sections, "Service"@),
        ""@,
        "="@,
        "\n"@,
    ) + "\n"@ + "[Install]\n"@ + "WantedBy=default.target\n"@
}

/// The `[Unit]` section of a unit file and the `[Service]` header after it.
pub open spec fn unit_head(spec: ServiceSpec) -> Seq<char> {
    let dp = spec.depends_on;
    "[Unit]\n"@ + "Description="@ + spec.description@ + "\n"@ + each_line(
        str_views(dp.after@),
        "After="@,
        ".service\n"@,
    ) + each_line(str_views(dp.before@), "Before="@, ".service\n"@) + each_line(
        str_views(dp.requires@),
        "Requires="@,
        ".service\n"@,
    ) + each_line(str_views(dp.wants@), "Wants="@, ".service\n"@) + each_line(
        str_views(dp.conflicts@),
        "Conflicts="@,
        ".service\n"@,
    ) + pair_lines(section(spec.overrides.systemd.pairs(), "Unit"@), ""@, "="@, "\n"@) + "\n"@ + "[Service]\n"@
}

/// A unit file begins with its `[Unit]` section and the `[Service]` header.
#[verifier::rlimit(100)]
#[verifier::spinoff_prover]
proof fn lemma_unit_head(spec: ServiceSpec)
    ensures
        unit_file(spec) == unit_head(spec) + unit_file(spec).skip(unit_head(spec).len() as int),
{
    assert(unit_file(spec) =~= unit_head(spec) + unit_file(spec).skip(unit_head(spec).len() as int));
}

/// The `[Service]` section of a unit file up to its user's environment.
spec fn service_head(spec: ServiceSpec) -> Seq<char> {
    "[Unit]\n"@ + "Description="@ + spec.description@ + "\n"@ + each_line(
        str_views(spec.depends_on.after@),
        "After="@,
        ".service\n"@,
    ) + each_line(str_views(spec.depends_on.before@), "Before="@, ".service\n"@) + each_line(
        str_views(spec.depends_on.requires@),
        "Requires="@,
        ".service\n"@,
    ) + each_line(str_views(spec.depends_on.wants@), "Wants="@, ".service\n"@) + each_line(
        str_views(spec.depends_on.conflicts@),
        "Conflicts="@,
        ".service\n"@,
    ) + pair_lines(section(spec.overrides.systemd.pairs(), "Unit"@), ""@, "="@, "\n"@) + "\n"@ + "[Service]\n"@
        + "Type="@ + systemd_type_word(spec.service_type) + "\n"@ + "ExecStart="@ + command_line(
        spec.command@,
        str_views(spec.args@),
    ) + "\n"@ + "Restart="@ + systemd_restart_word(spec.restart.strategy) + "\n"@ + "RestartSec="@
        + dec_nat(spec.restart.delay_secs as nat) + "\n"@ + opt_line("WorkingDirectory="@, spec.working_directory)
        + opt_line("User="@, spec.user) + opt_line("Group="@, spec.group) + pair_lines(
        spec.environment.pairs(),
        "Environment=\""@,
        "="@,
        "\"\n"@,
    )
}

/// A unit file begins with its `[Unit]` section and the first lines of its `[Service]`
/// section.
#[verifier::rlimit(100)]
#[verifier::spinoff_prover]
proof fn lemma_service_head(spec: ServiceSpec)
    ensures
        service_head(spec).is_prefix_of(unit_file(spec)),
{
    let u = unit_file(spec);
    let h = service_head(spec);
    assert(u =~= h + u.skip(h.len() as int));
    assert(h =~= u.subrange(0, h.len() as int));
}

/// The `[Service]` section opens with the service's type (`simple`, also for timer and
/// socket services, `oneshot`, `notify`, `forking`), its command line, its restart
/// strategy (`always`, `on-failure`, `on-success`, `no`) and delay, its working
/// directory, user and group when set, and an `Environment=` line per variable.
pub proof fn lemma_unit_service_lines(spec: ServiceSpec)
    ensures
        (unit_head(spec) + "Type="@ + (match spec.service_type {
            ServiceType::Oneshot => "oneshot"@,
            ServiceType::Notify => "notify"@,
            ServiceType::Forking => "forking"@,
            ServiceType::Simple | ServiceType::Timer | ServiceType::Socket => "simple"@,
        }) + "\n"@ + "ExecStart="@ + spec.command@ + (if spec.args.len() == 0 {
            Seq::empty()
        } else {
            " "@ + join(str_views(spec.args@), " "@)
        }) + "\n"@ + "Restart="@ + (match spec.restart.strategy {
            RestartStrategy::Always => "always"@,
            RestartStrategy::OnFailure => "on-failure"@,
            RestartStrategy::OnSuccess => "on-success"@,
            RestartStrategy::Never => "no"@,
        }) + "\n"@ + "RestartSec="@ + dec_nat(spec.restart.delay_secs as nat) + "\n"@ + (match spec.working_directory {
            Some(w) => "WorkingDirectory="@ + w@ + "\n"@,
            None => Seq::empty(),
        }) + (match spec.user {
            Some(u) => "User="@ + u@ + "\n"@,
            None => Seq::empty(),
        }) + (match spec.group {
            Some(g) => "Group="@ + g@ + "\n"@,
            None => Seq::empty(),
        }) + pair_lines(spec.environment.pairs(), "Environment=\""@, "="@, "\"\n"@)).is_prefix_of(unit_file(spec)),
{
    lemma_service_head(spec);
    let c = spec.command@;
    let e = if spec.args.len() == 0 {
        Seq::empty()
    } else {
        " "@ + join(str_views(spec.args@), " "@)
    };
    if spec.args.len() == 0 {
        assert(c + e =~= c);
    } else {
        assert(c + e =~= c + " "@ + join(str_views(spec.args@), " "@));
    }
    let x = unit_head(spec) + "Type="@ + systemd_type_word(spec.service_type) + "\n"@ + "ExecStart="@;
    lemma_concat_associative(x, c, e);
}

/// A unit file closes its `[Service]` section with where output and errors go (the
/// journal by default, else a file, `null` or the inherited stream), `NotifyAccess=main`
/// for a notifying service, the watchdog interval when set, the start and stop timeouts,
/// the resource limits and the `Service` overrides, then installs the service into
/// `default.target`.
pub proof fn lemma_unit_tail(spec: ServiceSpec)
    ensures
        ((match spec.logging.stdout {
            LogTarget::Journal => Seq::empty(),
            LogTarget::File(p) => "StandardOutput="@ + "file:"@ + p@ + "\n"@,
            LogTarget::Null => "StandardOutput="@ + "null\n"@,
            LogTarget::Inherit => "StandardOutput="@ + "inherit\n"@,
        }) + (match spec.logging.stderr {
            LogTarget::Journal => Seq::empty(),
            LogTarget::File(p) => "StandardError="@ + "file:"@ + p@ + "\n"@,
            LogTarget::Null => "StandardError="@ + "null\n"@,
            LogTarget::Inherit => "StandardError="@ + "inherit\n"@,
        }) + (if spec.notify {
            "NotifyAccess=main\n"@
        } else {
            Seq::empty()
        }) + (if spec.watchdog_sec > 0 {
            "WatchdogSec="@ + dec_nat(spec.watchdog_sec as nat) + "\n"@
        } else {
            Seq::empty()
        }) + "TimeoutStartSec="@ + dec_nat(spec.timeout_start_sec as nat) + "\n"@ + "TimeoutStopSec="@ + dec_nat(
            spec.timeout_stop_sec as nat,
        ) + "\n"@ + resource_lines(spec.resources) + pair_lines(
            section(spec.overrides.systemd.pairs(), "Service"@),
            ""@,
            "="@,
            "\n"@,
        ) + "\n"@ + "[Install]\n"@ + "WantedBy=default.target\n"@).is_suffix_of(unit_file(spec)),
{
    let u = unit_file(spec);
    let lo = log_line("StandardOutput="@, spec.logging.stdout);
    let le = log_line("StandardError="@, spec.logging.stderr);
    let nt = if spec.notify {
        "NotifyAccess=main\n"@
    } else {
        Seq::empty()
    };
    let wd = if spec.watchdog_sec > 0 {
        "WatchdogSec="@ + dec_nat(spec.watchdog_sec as nat) + "\n"@
    } else {
        Seq::empty()
    };
    let rs = resource_lines(spec.resources);
    let ps = pair_lines(section(spec.overrides.systemd.pairs(), "Service"@), ""@, "="@, "\n"@);
    lemma_regroup_after(
        service_head(spec),
        lo,
        le,
        nt,
        wd,
        "TimeoutStartSec="@,
        dec_nat(spec.timeout_start_sec as nat),
        "\n"@,
        "TimeoutStopSec="@,
        dec_nat(spec.timeout_stop_sec as nat),
        "\n"@,
        rs,
        ps,
        "\n"@,
        "[Install]\n"@,
        "WantedBy=default.target\n"@,
    );
    assert(u == service_head(spec) + lo + le + nt + wd + "TimeoutStartSec="@ + dec_nat(spec.timeout_start_sec as nat)
        + "\n"@ + "TimeoutStopSec="@ + dec_nat(spec.timeout_stop_sec as nat) + "\n"@ + rs + ps + "\n"@
        + "[Install]\n"@ + "WantedBy=default.target\n"@);
    let t = lo + le + nt + wd + "TimeoutStartSec="@ + dec_nat(spec.timeout_start_sec as nat) + "\n"@
        + "TimeoutStopSec="@ + dec_nat(spec.timeout_stop_sec as nat) + "\n"@ + rs + ps + "\n"@ + "[Install]\n"@
        + "WantedBy=default.target\n"@;
    assert(t =~= u.subrange(u.len() - t.len(), u.len() as int));
}

/// Regrouping the text after a prefix.
proof fn lemma_regroup_after(
    p: Seq<char>,
    a0: Seq<char>,
    a1: Seq<char>,
    a2: Seq<char>,
    a3: Seq<char>,
    a4: Seq<char>,
    a5: Seq<char>,
    a6: Seq<char>,
    a7: Seq<char>,
    a8: Seq<char>,
    a9: Seq<char>,
    a10: Seq<char>,
    a11: Seq<char>,
    a12: Seq<char>,
    a13: Seq<char>,
    a14: Seq<char>,
)
    ensures
        p + a0 + a1 + a2 + a3 + a4 + a5 + a6 + a7 + a8 + a9 + a10 + a11 + a12 + a13 + a14 == p + (a0 + a1 + a2 + a3 + a4 + a5 + a6 + a7 + a8 + a9 + a10 + a11 + a12 + a13 + a14),
{
    assert(p + a0 + a1 + a2 + a3 + a4 + a5 + a6 + a7 + a8 + a9 + a10 + a11 + a12 + a13 + a14 =~= p + (a0 + a1 + a2 + a3 + a4 + a5 + a6 + a7 + a8 + a9 + a10 + a11 + a12 + a13 + a14));
}

/// Regrouping the `[Unit]` section: the description line, the five blocks of
/// dependency lines, and what follows them.
proof fn lemma_regroup_head(
    t: Seq<char>,
    d1: Seq<char>,
    d2: Seq<char>,
    d3: Seq<char>,
    e0: Seq<char>,
    e1: Seq<char>,
    e2: Seq<char>,
    e3: Seq<char>,
    e4: Seq<char>,
    p: Seq<char>,
    n: Seq<char>,
    h: Seq<char>,
    r: Seq<char>,
)
    ensures
        t + d1 + d2 + d3 + e0 + e1 + e2 + e3 + e4 + p + n + h + r == t + (d1 + d2 + d3) + e0 + e1 + e2 + e3
            + e4 + (p + (n + h + r)),
{
    assert(t + d1 + d2 + d3 + e0 + e1 + e2 + e3 + e4 + p + n + h + r =~= t + (d1 + d2 + d3) + e0 + e1 + e2
        + e3 + e4 + (p + (n + h + r)));
}

/// Regrouping five blocks of lines around a line of block 0.
proof fn lemma_cut_block_0(
    top: Seq<char>,
    d: Seq<char>,
    e0: Seq<char>,
    e1: Seq<char>,
    e2: Seq<char>,
    e3: Seq<char>,
    e4: Seq<char>,
    tail: Seq<char>,
    before: Seq<char>,
    key: Seq<char>,
    name: Seq<char>,
    post: Seq<char>,
    after: Seq<char>,
)
    requires
        e0 == before + key + name + post + after,
    ensures
        top + d + e0 + e1 + e2 + e3 + e4 + tail == top + (d + before) + key + name + post + (after + (e1 + e2 + e3 + e4)) + tail,
{
    assert(top + d + e0 + e1 + e2 + e3 + e4 + tail =~= top + (d + before) + key + name + post + (after + (e1 + e2 + e3 + e4)) + tail);
}

/// Regrouping five blocks of lines around a line of block 1.
proof fn lemma_cut_block_1(
    top: Seq<char>,
    d: Seq<char>,
    e0: Seq<char>,
    e1: Seq<char>,
    e2: Seq<char>,
    e3: Seq<char>,
    e4: Seq<char>,
    tail: Seq<char>,
    before: Seq<char>,
    key: Seq<char>,
    name: Seq<char>,
    post: Seq<char>,
    after: Seq<char>,
)
    requires
        e1 == before + key + name + post + after,
    ensures
        top + d + e0 + e1 + e2 + e3 + e4 + tail == top + (d + e0 + before) + key + name + post + (after + (e2 + e3 + e4)) + tail,
{
    assert(top + d + e0 + e1 + e2 + e3 + e4 + tail =~= top + (d + e0 + before) + key + name + post + (after + (e2 + e3 + e4)) + tail);
}

/// Regrouping five blocks of lines around a line of block 2.
proof fn lemma_cut_block_2(
    top: Seq<char>,
    d: Seq<char>,
    e0: Seq<char>,
    e1: Seq<char>,
    e2: Seq<char>,
    e3: Seq<char>,
    e4: Seq<char>,
    tail: Seq<char>,
    before: Seq<char>,
    key: Seq<char>,
    name: Seq<char>,
    post: Seq<char>,
    after: Seq<char>,
)
    requires
        e2 == before + key + name + post + after,
    ensures
        top + d + e0 + e1 + e2 + e3 + e4 + tail == top + (d + e0 + e1 + before) + key + name + post + (after + (e3 + e4)) + tail,
{
    assert(top + d + e0 + e1 + e2 + e3 + e4 + tail =~= top + (d + e0 + e1 + before) + key + name + post + (after + (e3 + e4)) + tail);
}

/// Regrouping five blocks of lines around a line of block 3.
proof fn lemma_cut_block_3(
    top: Seq<char>,
    d: Seq<char>,
    e0: Seq<char>,
    e1: Seq<char>,
    e2: Seq<char>,
    e3: Seq<char>,
    e4: Seq<char>,
    tail: Seq<char>,
    before: Seq<char>,
    key: Seq<char>,
    name: Seq<char>,
    post: Seq<char>,
    after: Seq<char>,
)
    requires
        e3 == before + key + name + post + after,
    ensures
        top + d + e0 + e1 + e2 + e3 + e4 + tail == top + (d + e0 + e1 + e2 + before) + key + name + post + (after + (e4)) + tail,
{
    assert(top + d + e0 + e1 + e2 + e3 + e4 + tail =~= top + (d + e0 + e1 + e2 + before) + key + name + post + (after + (e4)) + tail);
}

/// Regrouping five blocks of lines around a line of block 4.
proof fn lemma_cut_block_4(
    top: Seq<char>,
    d: Seq<char>,
    e0: Seq<char>,
    e1: Seq<char>,
    e2: Seq<char>,
    e3: Seq<char>,
    e4: Seq<char>,
    tail: Seq<char>,
    before: Seq<char>,
    key: Seq<char>,
    name: Seq<char>,
    post: Seq<char>,
    after: Seq<char>,
)
    requires
        e4 == before + key + name + post + after,
    ensures
        top + d + e0 + e1 + e2 + e3 + e4 + tail == top + (d + e0 + e1 + e2 + e3 + before) + key + name + post + (after + (Seq::<char>::empty())) + tail,
{
    assert(top + d + e0 + e1 + e2 + e3 + e4 + tail =~= top + (d + e0 + e1 + e2 + e3 + before) + key + name + post + (after + (Seq::<char>::empty())) + tail);
}

/// Cutting one of five blocks of lines at a line: the text before that line ends a line.
proof fn lemma_cut_block(
    top: Seq<char>,
    d: Seq<char>,
    e0: Seq<char>,
    e1: Seq<char>,
    e2: Seq<char>,
    e3: Seq<char>,
    e4: Seq<char>,
    tail: Seq<char>,
    k: int,
    before: Seq<char>,
    key: Seq<char>,
    name: Seq<char>,
    post: Seq<char>,
    after: Seq<char>,
) -> (r: (Seq<char>, Seq<char>))
    requires
        d.len() > 0 && d.last() == '\n',
        ends_line(e0) && ends_line(e1) && ends_line(e2) && ends_line(e3) && ends_line(e4),
        ends_line(before),
        0 <= k < 5,
        k == 0 ==> e0 == before + key + name + post + after,
        k == 1 ==> e1 == before + key + name + post + after,
        k == 2 ==> e2 == before + key + name + post + after,
        k == 3 ==> e3 == before + key + name + post + after,
        k == 4 ==> e4 == before + key + name + post + after,
    ensures
        top + d + e0 + e1 + e2 + e3 + e4 + tail == top + r.0 + key + name + post + (after + r.1) + tail,
        r.0.len() > 0,
        r.0.last() == '\n',
{
    lemma_ends_line_add(d, e0);
    lemma_ends_line_add(d + e0, e1);
    lemma_ends_line_add(d + e0 + e1, e2);
    lemma_ends_line_add(d + e0 + e1 + e2, e3);
    if k == 0 {
        lemma_ends_line_add(d, before);
        lemma_cut_block_0(top, d, e0, e1, e2, e3, e4, tail, before, key, name, post, after);
        (d + before, e1 + e2 + e3 + e4)
    } else if k == 1 {
        lemma_ends_line_add(d + e0, before);
        lemma_cut_block_1(top, d, e0, e1, e2, e3, e4, tail, before, key, name, post, after);
        (d + e0 + before, e2 + e3 + e4)
    } else if k == 2 {
        lemma_ends_line_add(d + e0 + e1, before);
        lemma_cut_block_2(top, d, e0, e1, e2, e3, e4, tail, before, key, name, post, after);
        (d + e0 + e1 + before, e3 + e4)
    } else if k == 3 {
        lemma_ends_line_add(d + e0 + e1 + e2, before);
        lemma_cut_block_3(top, d, e0, e1, e2, e3, e4, tail, before, key, name, post, after);
        (d + e0 + e1 + e2 + before, e4)
    } else {
        lemma_ends_line_add(d + e0 + e1 + e2 + e3, before);
        lemma_cut_block_4(top, d, e0, e1, e2, e3, e4, tail, before, key, name, post, after);
        (d + e0 + e1 + e2 + e3 + before, Seq::empty())
    }
}


/// Regrouping the text after a line.
proof fn lemma_regroup_tail(x: Seq<char>, m: Seq<char>, p: Seq<char>, n: Seq<char>, h: Seq<char>, r: Seq<char>)
    ensures
        x + m + (p + (n + h + r)) == x + (m + p) + n + h + r,
{
    assert(x + m + (p + (n + h + r)) =~= x + (m + p) + n + h + r);
}

/// Cutting the dependency block of `key` at a line `key + name + ".service\n"`: the
/// `[Unit]` section runs up to that line, and the rest of the block follows it.
proof fn lemma_unit_cut(
    spec: ServiceSpec,
    key: Seq<char>,
    names: Seq<Seq<char>>,
    before: Seq<char>,
    name: Seq<char>,
    after: Seq<char>,
) -> (r: (Seq<char>, Seq<char>, Seq<char>))
    requires
        (key == "After="@ && names == str_views(spec.depends_on.after@)) || (key == "Before="@ && names
            == str_views(spec.depends_on.before@)) || (key == "Requires="@ && names == str_views(
            spec.depends_on.requires@,
        )) || (key == "Wants="@ && names == str_views(spec.depends_on.wants@)) || (key == "Conflicts="@
            && names == str_views(spec.depends_on.conflicts@)),
        each_line(names, key, ".service\n"@) == before + key + name + ".service\n"@ + after,
        ends_line(before),
    ensures
        unit_file(spec) == "[Unit]\n"@ + r.0 + key + name + ".service\n"@ + (after + r.1) + (pair_lines(
            section(spec.overrides.systemd.pairs(), "Unit"@),
            ""@,
            "="@,
            "\n"@,
        ) + ("\n"@ + "[Service]\n"@ + r.2)),
        r.0.len() > 0,
        r.0.last() == '\n',
{
    reveal_strlit(".service\n");
    reveal_strlit("\n");
    let dp = spec.depends_on;
    let post = ".service\n"@;
    let desc = "Description="@ + spec.description@ + "\n"@;
    let ea = each_line(str_views(dp.after@), "After="@, post);
    let eb = each_line(str_views(dp.before@), "Before="@, post);
    let er = each_line(str_views(dp.requires@), "Requires="@, post);
    let ew = each_line(str_views(dp.wants@), "Wants="@, post);
    let ec = each_line(str_views(dp.conflicts@), "Conflicts="@, post);
    let pu = pair_lines(section(spec.overrides.systemd.pairs(), "Unit"@), ""@, "="@, "\n"@);
    let rest = unit_file(spec).skip(unit_head(spec).len() as int);
    let tail = pu + ("\n"@ + "[Service]\n"@ + rest);
    lemma_unit_head(spec);
    lemma_regroup_head("[Unit]\n"@, "Description="@, spec.description@, "\n"@, ea, eb, er, ew, ec, pu, "\n"@, "[Service]\n"@, rest);
    lemma_each_line_last(str_views(dp.after@), "After="@, post);
    lemma_each_line_last(str_views(dp.before@), "Before="@, post);
    lemma_each_line_last(str_views(dp.requires@), "Requires="@, post);
    lemma_each_line_last(str_views(dp.wants@), "Wants="@, post);
    lemma_each_line_last(str_views(dp.conflicts@), "Conflicts="@, post);
    let k: int = if key == "After="@ && names == str_views(dp.after@) {
        0
    } else if key == "Before="@ && names == str_views(dp.before@) {
        1
    } else if key == "Requires="@ && names == str_views(dp.requires@) {
        2
    } else if key == "Wants="@ && names == str_views(dp.wants@) {
        3
    } else {
        4
    };
    assert(desc.last() == '\n');
    let (pre, more) = lemma_cut_block("[Unit]\n"@, desc, ea, eb, er, ew, ec, tail, k, before, key, name, post, after);
    (pre, more, rest)
}

/// Each service that a spec orders itself after or before, requires, wants or conflicts
/// with stands on a line of its own in the `[Unit]` section, before the `[Service]`
/// header: the key (`After=`, `Before=`, `Requires=`, `Wants=`, `Conflicts=`), the
/// name, and `.service`.
pub proof fn lemma_unit_dependency_line(spec: ServiceSpec, key: Seq<char>, names: Seq<Seq<char>>, i: int)
    requires
        (key == "After="@ && names == str_views(spec.depends_on.after@)) || (key == "Before="@ && names
            == str_views(spec.depends_on.before@)) || (key == "Requires="@ && names == str_views(
            spec.depends_on.requires@,
        )) || (key == "Wants="@ && names == str_views(spec.depends_on.wants@)) || (key == "Conflicts="@
            && names == str_views(spec.depends_on.conflicts@)),
        0 <= i < names.len(),
    ensures
        exists|pre: Seq<char>, mid: Seq<char>, rest: Seq<char>|
            unit_file(spec) == "[Unit]\n"@ + pre + key + names[i] + ".service\n"@ + mid + "\n"@ + "[Service]\n"@
                + rest && pre.len() > 0 && pre.last() == '\n',
{
    reveal_strlit(".service\n");
    let post = ".service\n"@;
    lemma_each_line_at(names, key, post, i);
    let before = each_line(names.take(i), key, post);
    let after = each_line(names.skip(i + 1), key, post);
    lemma_each_line_last(names.take(i), key, post);
    let (pre, more, rest) = lemma_unit_cut(spec, key, names, before, names[i], after);
    let pu = pair_lines(section(spec.overrides.systemd.pairs(), "Unit"@), ""@, "="@, "\n"@);
    let mid = after + more;
    let x = "[Unit]\n"@ + pre + key + names[i] + post;
    lemma_regroup_tail(x, mid, pu, "\n"@, "[Service]\n"@, rest);
    assert(unit_file(spec) == "[Unit]\n"@ + pre + key + names[i] + ".service\n"@ + (mid + pu) + "\n"@
        + "[Service]\n"@ + rest && pre.len() > 0 && pre.last() == '\n');
}

/// The dependency lines of one key keep the order of the spec's list: the line of an
/// earlier name comes before the line of a later one.
pub proof fn lemma_unit_dependency_order(
    spec: ServiceSpec,
    key: Seq<char>,
    names: Seq<Seq<char>>,
    i: int,
    j: int,
)
    requires
        (key == "After="@ && names == str_views(spec.depends_on.after@)) || (key == "Before="@ && names
            == str_views(spec.depends_on.before@)) || (key == "Requires="@ && names == str_views(
            spec.depends_on.requires@,
        )) || (key == "Wants="@ && names == str_views(spec.depends_on.wants@)) || (key == "Conflicts="@
            && names == str_views(spec.depends_on.conflicts@)),
        0 <= i < j < names.len(),
    ensures
        exists|pre: Seq<char>, mid: Seq<char>, rest: Seq<char>|
            unit_file(spec) == "[Unit]\n"@ + pre + key + names[i] + ".service\n"@ + mid + key + names[j]
                + ".service\n"@ + rest && pre.len() > 0 && pre.last() == '\n',
{
    reveal_strlit(".service\n");
    let post = ".service\n"@;
    let front = names.take(j);
    lemma_each_line_at(names, key, post, j);
    lemma_each_line_at(front, key, post, i);
    assert(front.take(i) =~= names.take(i));
    assert(front[i] == names[i]);
    let b = each_line(names.take(i), key, post);
    let m = each_line(front.skip(i + 1), key, post);
    let a = each_line(names.skip(j + 1), key, post);
    lemma_each_line_last(names.take(i), key, post);
    let after = m + key + names[j] + post + a;
    lemma_regroup_two(b, key, names[i], post, m, names[j], a);
    let (pre, more, rest) = lemma_unit_cut(spec, key, names, b, names[i], after);
    let pu = pair_lines(section(spec.overrides.systemd.pairs(), "Unit"@), ""@, "="@, "\n"@);
    let tail = pu + ("\n"@ + "[Service]\n"@ + rest);
    let x = "[Unit]\n"@ + pre + key + names[i] + post;
    lemma_regroup_two_tail(x, m, key, names[j], post, a, more, tail);
    assert(unit_file(spec) == "[Unit]\n"@ + pre + key + names[i] + ".service\n"@ + m + key + names[j]
        + ".service\n"@ + (a + more + tail) && pre.len() > 0 && pre.last() == '\n');
}

/// Two lines in one block, regrouped around the first.
proof fn lemma_regroup_two(
    b: Seq<char>,
    key: Seq<char>,
    n1: Seq<char>,
    post: Seq<char>,
    m: Seq<char>,
    n2: Seq<char>,
    a: Seq<char>,
)
    ensures
        (b + key + n1 + post + m) + key + n2 + post + a == b + key + n1 + post + (m + key + n2 + post + a),
{
    assert((b + key + n1 + post + m) + key + n2 + post + a =~= b + key + n1 + post + (m + key + n2 + post + a));
}

/// The text after the first of two lines, regrouped around the second.
proof fn lemma_regroup_two_tail(
    x: Seq<char>,
    m: Seq<char>,
    key: Seq<char>,
    n2: Seq<char>,
    post: Seq<char>,
    a: Seq<char>,
    more: Seq<char>,
    tail: Seq<char>,
)
    ensures
        x + ((m + key + n2 + post + a) + more) + tail == x + m + key + n2 + post + (a + more + tail),
{
    assert(x + ((m + key + n2 + post + a) + more) + tail =~= x + m + key + n2 + post + (a + more + tail));
}

fn type_word(t: ServiceType) -> (r: &'static str)
    ensures
        r@ == systemd_type_word(t),
{
    match t {
        ServiceType::Simple => "simple",
        ServiceType::Oneshot => "oneshot",
        ServiceType::Notify => "notify",
        ServiceType::Forking => "forking",
        ServiceType::Timer => "simple",
        ServiceType::Socket => "simple",
    }
}

fn restart_word(s: RestartStrategy) -> (r: &'static str)
    ensures
        r@ == systemd_restart_word(s),
{
    match s {
        RestartStrategy::Always => "always",
        RestartStrategy::OnFailure => "on-failure",
        RestartStrategy::OnSuccess => "on-success",
        RestartStrategy::Never => "no",
    }
}

/// Appends the command line.
pub fn push_command_line(out: &mut String, command: &String, args: &Vec<String>)
    ensures
        final(out)@ == old(out)@ + command_line(command@, str_views(args@)),
{
    let ghost before = out@;
    out.append(command.as_str());
    if args.len() > 0 {
        out.append(" ");
        let joined = join_strings(args, " ");
        out.append(joined.as_str());
    }
    assert(out@ =~= before + command_line(command@, str_views(args@)));
}

fn push_log_line(out: &mut String, key: &str, t: &LogTarget)
    ensures
        final(out)@ == old(out)@ + log_line(key@, *t),
{
    let ghost before = out@;
    match t {
        LogTarget::Journal => {},
        LogTarget::File(p) => {
            out.append(key);
            out.append("file:");
            out.append(p.as_str());
            out.append("\n");
        },
        LogTarget::Null => {
            out.append(key);
            out.append("null\n");
        },
        LogTarget::Inherit => {
            out.append(key);
            out.append("inherit\n");
        },
    }
    assert(out@ =~= before + log_line(key@, *t));
}

/// Appends a memory line.
pub fn push_memory_line(out: &mut String, key: &str, m: &Option<MemorySize>)
    ensures
        final(out)@ == old(out)@ + memory_line(key@, *m),
{
    let ghost before = out@;
    if let Some(x) = m {
        out.append(key);
        out.append(x.to_string().as_str());
        out.append("\n");
    }
    assert(out@ =~= before + memory_line(key@, *m));
}

/// Appends a weight line.
pub fn push_weight_line(out: &mut String, key: &str, w: &Option<Weight>)
    ensures
        final(out)@ == old(out)@ + weight_line(key@, *w),
{
    let ghost before = out@;
    if let Some(x) = w {
        out.append(key);
        out.append(x.to_string().as_str());
        out.append("\n");
    }
    assert(out@ =~= before + weight_line(key@, *w));
}

/// Appends a number line.
pub fn push_number_line(out: &mut String, key: &str, n: &Option<u64>)
    ensures
        final(out)@ == old(out)@ + number_line(key@, *n),
{
    let ghost before = out@;
    if let Some(x) = n {
        out.append(key);
        push_u64(out, *x);
        out.append("\n");
    }
    assert(out@ =~= before + number_line(key@, *n));
}

/// Appends a nice line.
pub fn push_nice_line(out: &mut String, key: &str, n: &Option<NiceValue>)
    ensures
        final(out)@ == old(out)@ + nice_line(key@, *n),
{
    let ghost before = out@;
    if let Some(x) = n {
        out.append(key);
        out.append(x.to_string().as_str());
        out.append("\n");
    }
    assert(out@ =~= before + nice_line(key@, *n));
}

fn push_resource_lines(out: &mut String, res: &Option<ResourceLimits>)
    ensures
        final(out)@ == old(out)@ + resource_lines(*res),
{
    let ghost before = out@;
    match res {
        None => {},
        Some(r) => {
            push_memory_line(out, "MemoryMax=", &r.memory_max);
            push_memory_line(out, "MemoryHigh=", &r.memory_high);
            push_weight_line(out, "CPUWeight=", &r.cpu_weight);
            push_opt_line(out, "CPUQuota=", &r.cpu_quota);
            push_number_line(out, "TasksMax=", &r.tasks_max);
            push_weight_line(out, "IOWeight=", &r.io_weight);
            push_nice_line(out, "Nice=", &r.nice);
        },
    }
    assert(out@ =~= before + resource_lines(*res));
}

/// The systemd unit file of a spec.
pub fn spec_to_unit(spec: &ServiceSpec) -> (unit: String)
    ensures
        unit@ == unit_file(*spec),
{
    let d = &spec.depends_on;
    let mut unit = String::new();
    unit.append("[Unit]\n");
    unit.append("Description=");
    unit.append(spec.description.as_str());
    unit.append("\n");
    push_each(&mut unit, &d.after, "After=", ".service\n");
    push_each(&mut unit, &d.before, "Before=", ".service\n");
    push_each(&mut unit, &d.requires, "Requires=", ".service\n");
    push_each(&mut unit, &d.wants, "Wants=", ".service\n");
    push_each(&mut unit, &d.conflicts, "Conflicts=", ".service\n");
    push_section(&mut unit, &spec.overrides.systemd, "Unit");
    unit.append("\n");
    unit.append("[Service]\n");
    unit.append("Type=");
    unit.append(type_word(spec.service_type));
    unit.append("\n");
    unit.append("ExecStart=");
    push_command_line(&mut unit, &spec.command, &spec.args);
    unit.append("\n");
    unit.append("Restart=");
    unit.append(restart_word(spec.restart.strategy));
    unit.append("\n");
    unit.append("RestartSec=");
    push_u64(&mut unit, spec.restart.delay_secs);
    unit.append("\n");
    push_opt_line(&mut unit, "WorkingDirectory=", &spec.working_directory);
    push_opt_line(&mut unit, "User=", &spec.user);
    push_opt_line(&mut unit, "Group=", &spec.group);
    push_pairs(&mut unit, &spec.environment, "Environment=\"", "=", "\"\n");
    push_log_line(&mut unit, "StandardOutput=", &spec.logging.stdout);
    push_log_line(&mut unit, "StandardError=", &spec.logging.stderr);
    let ghost g0 = unit@;
    if spec.notify {
        unit.append("NotifyAccess=main\n");
    }
    let ghost g1 = unit@;
    if spec.watchdog_sec > 0 {
        unit.append("WatchdogSec=");
        push_u64(&mut unit, spec.watchdog_sec);
        unit.append("\n");
    }
    let ghost g2 = unit@;
    proof {
        assert(g1 =~= g0 + if spec.notify {
            "NotifyAccess=main\n"@
        } else {
            Seq::empty()
        });
        assert(g2 =~= g1 + if spec.watchdog_sec > 0 {
            "WatchdogSec="@ + dec_nat(spec.watchdog_sec as nat) + "\n"@
        } else {
            Seq::empty()
        });
    }
    unit.append("TimeoutStartSec=");
    push_u64(&mut unit, spec.timeout_start_sec);
    unit.append("\n");
    unit.append("TimeoutStopSec=");
    push_u64(&mut unit, spec.timeout_stop_sec);
    unit.append("\n");
    push_resource_lines(&mut unit, &spec.resources);
    push_section(&mut unit, &spec.overrides.systemd, "Service");
    unit.append("\n");
    unit.append("[Install]\n");
    unit.append("WantedBy=default.target\n");
    assert(unit@ =~= unit_file(*spec));
    unit
}

// ---------------------------------------------------------------------------
// Reading `systemctl`
// ---------------------------------------------------------------------------

/// The `key=value` properties of `systemctl show` output (split at the first `=`), a
/// later line replacing the value of an earlier one.
pub open spec fn show_props(lines: Seq<Seq<char>>) -> Seq<(Seq<char>, Seq<char>)>
    decreases lines.len(),
{
    if lines.len() == 0 {
        Seq::empty()
    } else {
        let p = show_props(lines.drop_last());
        match split_once(lines.last(), '=') {
            Some((k, v)) => insert_pair(p, k, v),
            None => p,
        }
    }
}

/// Reads the `key=value` lines of `systemctl show` output.
pub fn parse_systemctl_show(output: &str) -> (r: StrMap<String>)
    ensures
        r.pairs() == show_props(lines_of(output@)),
{
    let ls = lines(output);
    let ghost lv = ls@.map_values(|x: String| x@);
    let mut map: StrMap<String> = StrMap::new();
    let mut i: usize = 0;
    assert(lv.take(0) =~= Seq::<Seq<char>>::empty());
    while i < ls.len()
        invariant
            lv == ls@.map_values(|x: String| x@),
            i <= ls@.len(),
            map.pairs() == show_props(lv.take(i as int)),
        decreases ls@.len() - i,
    {
        assert(lv.take(i + 1).drop_last() =~= lv.take(i as int));
        assert(lv.take(i + 1).last() == ls@[i as int]@);
        match split_once_char(ls[i].as_str(), '=') {
            Some((k, v)) => {
                map.insert(k, v);
            },
            None => {},
        }
        i = i + 1;
    }
    assert(lv.take(ls@.len() as int) =~= lv);
    map
}

/// The state that an `ActiveState` value denotes.
pub open spec fn active_state(v: Option<Seq<char>>) -> ServiceState {
    match v {
        Some(s) => if s == "active"@ {
            ServiceState::Running
        } else if s == "inactive"@ {
            ServiceState::Inactive
        } else if s == "failed"@ {
            ServiceState::Failed
        } else if s == "activating"@ {
            ServiceState::Starting
        } else if s == "deactivating"@ {
            ServiceState::Stopping
        } else if s == "reloading"@ {
            ServiceState::Reloading
        } else {
            ServiceState::Unknown
        },
        None => ServiceState::Unknown,
    }
}

/// A `MainPID` value that names a process.
pub open spec fn main_pid(v: Option<Seq<char>>) -> Option<u32> {
    match v {
        Some(s) => match parse_unsigned(s, u32::MAX as nat) {
            Some(p) => if p > 0 {
                Some(p as u32)
            } else {
                None
            },
            None => None,
        },
        None => None,
    }
}

/// An `ExecMainStatus` value.
pub open spec fn main_status(v: Option<Seq<char>>) -> Option<i32> {
    match v {
        Some(s) => match parse_signed(s, i32::MIN as int, i32::MAX as int) {
            Some(x) => Some(x as i32),
            None => None,
        },
        None => None,
    }
}

/// An `NRestarts` value, 0 when absent or unreadable.
pub open spec fn restarts(v: Option<Seq<char>>) -> u32 {
    match v {
        Some(s) => match parse_unsigned(s, u32::MAX as nat) {
            Some(x) => x as u32,
            None => 0,
        },
        None => 0,
    }
}

/// A `MemoryCurrent` value; the largest `u64` means "not available".
pub open spec fn memory_current(v: Option<Seq<char>>) -> Option<u64> {
    match v {
        Some(s) => match parse_unsigned(s, u64::MAX as nat) {
            Some(x) => if x < u64::MAX {
                Some(x as u64)
            } else {
                None
            },
            None => None,
        },
        None => None,
    }
}

/// The status of service `name` from its `systemctl show` properties.
pub open spec fn show_status(s: ServiceStatus, name: Seq<char>, props: Seq<(Seq<char>, Seq<char>)>) -> bool {
    &&& s.name@ == name
    &&& s.state == active_state(lookup(props, "ActiveState"@))
    &&& s.pid == main_pid(lookup(props, "MainPID"@))
    &&& s.exit_code == main_status(lookup(props, "ExecMainStatus"@))
    &&& s.started_at is None
    &&& s.uptime_secs is None
    &&& s.restart_count == restarts(lookup(props, "NRestarts"@))
    &&& s.health == HealthState::Unknown
    &&& s.backend@ == "systemd"@
    &&& s.memory_bytes == memory_current(lookup(props, "MemoryCurrent"@))
}

/// The state read from `systemctl show` follows its `ActiveState` property: `active`
/// is running, `inactive` inactive, `failed` failed, `activating` starting,
/// `deactivating` stopping, `reloading` reloading; any other value, or none, is unknown.
/// The status names the service asked about and the systemd backend, with no health,
/// start time or uptime.
pub proof fn lemma_show_state(s: ServiceStatus, name: Seq<char>, props: Seq<(Seq<char>, Seq<char>)>)
    requires
        show_status(s, name, props),
    ensures
        lookup(props, "ActiveState"@) == Some("active"@) ==> s.state == ServiceState::Running,
        lookup(props, "ActiveState"@) == Some("inactive"@) ==> s.state == ServiceState::Inactive,
        lookup(props, "ActiveState"@) == Some("failed"@) ==> s.state == ServiceState::Failed,
        lookup(props, "ActiveState"@) == Some("activating"@) ==> s.state == ServiceState::Starting,
        lookup(props, "ActiveState"@) == Some("deactivating"@) ==> s.state == ServiceState::Stopping,
        lookup(props, "ActiveState"@) == Some("reloading"@) ==> s.state == ServiceState::Reloading,
        lookup(props, "ActiveState"@) is None ==> s.state == ServiceState::Unknown,
        s.name@ == name,
        s.backend@ == "systemd"@,
        s.health == HealthState::Unknown,
        s.started_at is None && s.uptime_secs is None,
        forall|v: Seq<char>|
            lookup(props, "ActiveState"@) == Some(v) && v != "active"@ && v != "inactive"@ && v != "failed"@ && v != "activating"@ && v != "deactivating"@ && v != "reloading"@ ==> s.state
                == ServiceState::Unknown,
{
    reveal_strlit("active");
    assert("active"@.len() == 6 && "active"@[0] == 'a');
    reveal_strlit("inactive");
    assert("inactive"@.len() == 8 && "inactive"@[0] == 'i');
    reveal_strlit("failed");
    assert("failed"@.len() == 6 && "failed"@[0] == 'f');
    reveal_strlit("activating");
    assert("activating"@.len() == 10 && "activating"@[0] == 'a');
    reveal_strlit("deactivating");
    assert("deactivating"@.len() == 12 && "deactivating"@[0] == 'd');
    reveal_strlit("reloading");
    assert("reloading"@.len() == 9 && "reloading"@[0] == 'r');
}

/// The numbers read from `systemctl show` are the decimal values of their properties:
/// a positive `MainPID` is the process (0 means none), `ExecMainStatus` the exit code,
/// `NRestarts` the restart count (0 when absent), and `MemoryCurrent` the memory in
/// use, except the largest `u64`, which means "not available".
pub proof fn lemma_show_numbers(s: ServiceStatus, name: Seq<char>, props: Seq<(Seq<char>, Seq<char>)>)
    requires
        show_status(s, name, props),
    ensures
        forall|p: nat|
            0 < p <= u32::MAX && lookup(props, "MainPID"@) == Some(#[trigger] dec_nat(p)) ==> s.pid == Some(
                p as u32,
            ),
        lookup(props, "MainPID"@) == Some(dec_nat(0)) ==> s.pid is None,
        lookup(props, "MainPID"@) is None ==> s.pid is None,
        forall|c: nat|
            c <= i32::MAX && lookup(props, "ExecMainStatus"@) == Some(#[trigger] dec_nat(c)) ==> s.exit_code
                == Some(c as i32),
        lookup(props, "ExecMainStatus"@) is None ==> s.exit_code is None,
        forall|n: nat|
            n <= u32::MAX && lookup(props, "NRestarts"@) == Some(#[trigger] dec_nat(n)) ==> s.restart_count
                == n as u32,
        lookup(props, "NRestarts"@) is None ==> s.restart_count == 0,
        forall|m: nat|
            m < u64::MAX && lookup(props, "MemoryCurrent"@) == Some(#[trigger] dec_nat(m)) ==> s.memory_bytes
                == Some(m as u64),
        lookup(props, "MemoryCurrent"@) == Some(dec_nat(u64::MAX as nat)) ==> s.memory_bytes is None,
        lookup(props, "MemoryCurrent"@) is None ==> s.memory_bytes is None,
{
    assert forall|p: nat|
        0 < p <= u32::MAX && lookup(props, "MainPID"@) == Some(#[trigger] dec_nat(p)) implies s.pid == Some(
            p as u32,
        ) by {
        lemma_parse_dec_nat(p, u32::MAX as nat);
    }
    lemma_parse_dec_nat(0, u32::MAX as nat);
    assert forall|c: nat|
        c <= i32::MAX && lookup(props, "ExecMainStatus"@) == Some(#[trigger] dec_nat(c)) implies s.exit_code
            == Some(c as i32) by {
        lemma_parse_dec_nat(c, i32::MAX as nat);
        lemma_dec_nat_digits(c);
        assert('0' <= dec_nat(c)[0] <= '9');
    }
    assert forall|n: nat|
        n <= u32::MAX && lookup(props, "NRestarts"@) == Some(#[trigger] dec_nat(n)) implies s.restart_count
            == n as u32 by {
        lemma_parse_dec_nat(n, u32::MAX as nat);
    }
    assert forall|m: nat|
        m < u64::MAX && lookup(props, "MemoryCurrent"@) == Some(#[trigger] dec_nat(m)) implies s.memory_bytes
            == Some(m as u64) by {
        lemma_parse_dec_nat(m, u64::MAX as nat);
    }
    lemma_parse_dec_nat(u64::MAX as nat, u64::MAX as nat);
}

fn prop<'a>(props: &'a StrMap<String>, key: &str) -> (r: Option<&'a String>)
    ensures
        match r {
            Some(v) => lookup(props.pairs(), key@) == Some(v@),
            None => lookup(props.pairs(), key@) is None,
        },
{
    props.get(key)
}

/// The status of service `name` from the output of `systemctl show`.
pub fn status_from_show(name: &str, output: &str) -> (s: ServiceStatus)
    ensures
        show_status(s, name@, show_props(lines_of(output@))),
{
    let props = parse_systemctl_show(output);
    let state = match prop(&props, "ActiveState") {
        Some(v) => {
            let v = v.as_str();
            if str_eq(v, "active") {
                ServiceState::Running
            } else if str_eq(v, "inactive") {
                ServiceState::Inactive
            } else if str_eq(v, "failed") {
                ServiceState::Failed
            } else if str_eq(v, "activating") {
                ServiceState::Starting
            } else if str_eq(v, "deactivating") {
                ServiceState::Stopping
            } else if str_eq(v, "reloading") {
                ServiceState::Reloading
            } else {
                ServiceState::Unknown
            }
        },
        None => ServiceState::Unknown,
    };
    let pid = match prop(&props, "MainPID") {
        Some(v) => match parse_u32(v.as_str()) {
            Some(p) => if p > 0 {
                Some(p)
            } else {
                None
            },
            None => None,
        },
        None => None,
    };
    let exit_code = match prop(&props, "ExecMainStatus") {
        Some(v) => parse_i32(v.as_str()),
        None => None,
    };
    let restart_count = match prop(&props, "NRestarts") {
        Some(v) => match parse_u32(v.as_str()) {
            Some(x) => x,
            None => 0,
        },
        None => 0,
    };
    let memory_bytes = match prop(&props, "MemoryCurrent") {
        Some(v) => match parse_u64(v.as_str()) {
            Some(x) => if x < u64::MAX {
                Some(x)
            } else {
                None
            },
            None => None,
        },
        None => None,
    };
    ServiceStatus {
        name: name.to_owned(),
        state,
        pid,
        exit_code,
        started_at: None,
        uptime_secs: None,
        restart_count,
        health: HealthState::Unknown,
        backend: "systemd".to_owned(),
        memory_bytes,
    }
}

/// The state that a unit's `SUB` column denotes.
pub open spec fn sub_state(s: Seq<char>) -> ServiceState {
    if s == "running"@ {
        ServiceState::Running
    } else if s == "exited"@ {
        ServiceState::Stopped
    } else if s == "failed"@ {
        ServiceState::Failed
    } else if s == "waiting"@ {
        ServiceState::Inactive
    } else if s == "start"@ || s == "start-pre"@ || s == "start-post"@ {
        ServiceState::Starting
    } else if s == "stop"@ || s == "stop-pre"@ || s == "stop-post"@ {
        ServiceState::Stopping
    } else {
        ServiceState::Unknown
    }
}

/// The services that `systemctl list-units` lists: each line of at least four words
/// names a unit (`.service` stripped) and its sub-state.
pub open spec fn listed_units(lines: Seq<Seq<char>>) -> Seq<(Seq<char>, ServiceState)>
    decreases lines.len(),
{
    if lines.len() == 0 {
        Seq::empty()
    } else {
        let rest = listed_units(lines.drop_last());
        let parts = words_of(lines.last());
        if parts.len() >= 4 {
            rest.push((strip_suffixes(parts[0], ".service"@), sub_state(parts[2])))
        } else {
            rest
        }
    }
}

fn sub_state_of(s: &str) -> (r: ServiceState)
    ensures
        r == sub_state(s@),
{
    if str_eq(s, "running") {
        ServiceState::Running
    } else if str_eq(s, "exited") {
        ServiceState::Stopped
    } else if str_eq(s, "failed") {
        ServiceState::Failed
    } else if str_eq(s, "waiting") {
        ServiceState::Inactive
    } else if str_eq(s, "start") || str_eq(s, "start-pre") || str_eq(s, "start-post") {
        ServiceState::Starting
    } else if str_eq(s, "stop") || str_eq(s, "stop-pre") || str_eq(s, "stop-post") {
        ServiceState::Stopping
    } else {
        ServiceState::Unknown
    }
}

/// The services listed by `systemctl list-units --type=service --plain --no-legend`.
pub fn parse_list_units(output: &str) -> (r: Vec<ServiceStatus>)
    ensures
        r@.len() == listed_units(lines_of(output@)).len(),
        forall|i: int|
            0 <= i < r@.len() ==> bare_status(
                #[trigger] r@[i],
                listed_units(lines_of(output@))[i].0,
                listed_units(lines_of(output@))[i].1,
                "systemd"@,
            ),
{
    let ls = lines(output);
    let ghost lv = ls@.map_values(|x: String| x@);
    let mut out: Vec<ServiceStatus> = Vec::new();
    let mut i: usize = 0;
    assert(lv.take(0) =~= Seq::<Seq<char>>::empty());
    while i < ls.len()
        invariant
            lv == ls@.map_values(|x: String| x@),
            i <= ls@.len(),
            out@.len() == listed_units(lv.take(i as int)).len(),
            forall|j: int|
                0 <= j < out@.len() ==> bare_status(
                    #[trigger] out@[j],
                    listed_units(lv.take(i as int))[j].0,
                    listed_units(lv.take(i as int))[j].1,
                    "systemd"@,
                ),
        decreases ls@.len() - i,
    {
        assert(lv.take(i + 1).drop_last() =~= lv.take(i as int));
        assert(lv.take(i + 1).last() == ls@[i as int]@);
        let parts = words(ls[i].as_str());
        if parts.len() >= 4 {
            let unit = trim_suffixes(parts[0].as_str(), ".service");
            let state = sub_state_of(parts[2].as_str());
            let st = ServiceStatus::new(unit.as_str(), state, "systemd");
            out.push(st);
        }
        i = i + 1;
    }
    assert(lv.take(ls@.len() as int) =~= lv);
    out
}

} // verus!
