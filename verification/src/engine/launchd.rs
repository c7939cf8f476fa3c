//! The launchd backend: property lists, `launchctl` targets, and reading what
//! `launchctl` prints.
//!
//! Operates in the user (GUI) domain unless root.
use vstd::prelude::*;
use vstd::utf8::{decode_utf8_encode_utf8, encode_utf8};

use crate::engine::plist_doc::{
    dict_insert, dict_is_empty, dict_new, json_plist, json_value_to_plist, plist_entries,
    plist_model, plist_xml, utf8_string, value_array, value_bool, value_dict, value_int,
    value_string, value_uint, write_xml, PlistTree, entries_uid_free, uid_free,
    lemma_insert_pair_uid_free, lemma_json_plist_uid_free, dict_string, entry_string, plist_read,
    read_dictionary,
};
use crate::error::Error;
use crate::json::{JsonModel, JsonValue};
use crate::strmap::{
    insert_pair, keys_of, lemma_lookup_first, lemma_lookup_insert_pair, lemma_lookup_unique_last, lookup,
    StrMap,
};
use crate::text::{
    dec_nat, has_prefix, join_path, lines, lines_of, parse_i32, parse_i64, parse_signed, parse_u32,
    parse_unsigned, path_join, split_chars, split_on, starts_with, str_eq, str_views, string_of, trim,
    trimmed,
};
use crate::types::logging::{LogTarget, LoggingSpec};
use crate::types::resource_limits::{MemorySize, ResourceLimits};
use crate::types::service_spec::{RestartPolicy, RestartStrategy, ServiceSpec, ServiceType};
use crate::types::service_status::{HealthState, ServiceState, ServiceStatus};

verus! {

/// The launchd backend's settings.
pub struct LaunchdBackend {
    /// Whether services live in the user's GUI domain.
    pub user_mode: bool,
    /// Where property lists are written.
    pub plist_dir: String,
    /// The user's id, for the GUI domain.
    pub uid: u32,
}

impl LaunchdBackend {
    /// The backend for a process that is root or not, of user `uid`, with the given
    /// home directory.
    pub fn new(is_root: bool, uid: u32, home: &str) -> (b: LaunchdBackend)
        ensures
            b.user_mode == !is_root,
            b.uid == uid,
            b.plist_dir@ == if is_root {
                "/Library/LaunchDaemons"@
            } else {
                path_join(home@, "Library/LaunchAgents"@)
            },
    {
        let plist_dir = if is_root {
            "/Library/LaunchDaemons".to_owned()
        } else {
            join_path(home, "Library/LaunchAgents")
        };
        LaunchdBackend { user_mode: !is_root, plist_dir, uid }
    }

    /// The backend writing its property lists into `dir`.
    pub fn with_dir(is_root: bool, uid: u32, dir: &str) -> (b: LaunchdBackend)
        ensures
            b.user_mode == !is_root,
            b.uid == uid,
            b.plist_dir@ == dir@,
    {
        LaunchdBackend { user_mode: !is_root, plist_dir: dir.to_owned(), uid }
    }

    /// The launchd domain: `gui/<uid>` for a user, `system` otherwise.
    pub fn domain_target(&self) -> (r: String)
        ensures
            r@ == if self.user_mode {
                "gui/"@ + dec_nat(self.uid as nat)
            } else {
                "system"@
            },
    {
        if self.user_mode {
            let mut r = String::new();
            r.append("gui/");
            crate::text::push_u64(&mut r, self.uid as u64);
            assert(r@ =~= "gui/"@ + dec_nat(self.uid as nat));
            r
        } else {
            "system".to_owned()
        }
    }

    /// The target of service `label` within the domain.
    pub fn service_target(&self, label: &str) -> (r: String)
        ensures
            r@ == (if self.user_mode {
                "gui/"@ + dec_nat(self.uid as nat)
            } else {
                "system"@
            }) + "/"@ + label@,
    {
        let mut r = self.domain_target();
        r.append("/");
        r.append(label);
        r
    }

    /// The path of the property list of service `name`.
    pub fn plist_path(&self, name: &str) -> (r: String)
        ensures
            r@ == path_join(self.plist_dir@, name@ + ".plist"@),
    {
        let mut file = name.to_owned();
        file.append(".plist");
        join_path(self.plist_dir.as_str(), file.as_str())
    }

    /// The backend's name.
    pub fn name(&self) -> (r: &'static str)
        ensures
            r@ == "launchd"@,
    {
        "launchd"
    }
}

// ---------------------------------------------------------------------------
// Memory sizes
// ---------------------------------------------------------------------------

/// The number text and multiplier of a memory string: a trailing `G`, `M` or `K`
/// scales by 2^30, 2^20 or 2^10.
pub open spec fn memory_parts(t: Seq<char>) -> (Seq<char>, int) {
    if t.len() > 0 && t.last() == 'G' {
        (t.drop_last(), 1073741824)
    } else if t.len() > 0 && t.last() == 'M' {
        (t.drop_last(), 1048576)
    } else if t.len() > 0 && t.last() == 'K' {
        (t.drop_last(), 1024)
    } else {
        (t, 1)
    }
}

/// The number of bytes a memory string like `512M` denotes, if it reads as one.
pub open spec fn memory_string_value(s: Seq<char>) -> Option<int> {
    let t = trim(s);
    if t.len() == 0 {
        None
    } else {
        let (n, m) = memory_parts(t);
        match parse_signed(trim(n), i64::MIN as int, i64::MAX as int) {
            Some(x) => Some(x * m),
            None => None,
        }
    }
}

/// The bytes of a memory string like `"512M"`, `"1G"`, `"1024K"` or `"1024"`.
pub fn parse_memory_string(s: &str) -> (r: Option<i64>)
    requires
        memory_string_value(s@) matches Some(v) ==> i64::MIN <= v <= i64::MAX,
    ensures
        match memory_string_value(s@) {
            Some(v) => r == Some(v as i64),
            None => r is None,
        },
{
    let t = trimmed(s);
    let n = t.as_str().unicode_len();
    if n == 0 {
        return None;
    }
    let last = t.as_str().get_char(n - 1);
    let (num, mult): (String, i64) = if last == 'G' {
        (string_of(t.as_str(), 0, n - 1), 1073741824)
    } else if last == 'M' {
        (string_of(t.as_str(), 0, n - 1), 1048576)
    } else if last == 'K' {
        (string_of(t.as_str(), 0, n - 1), 1024)
    } else {
        (t.clone(), 1)
    };
    assert(num@ == memory_parts(t@).0 && mult == memory_parts(t@).1) by {
        assert(t@.subrange(0, n - 1) =~= t@.drop_last());
    }
    let num_t = trimmed(num.as_str());
    match parse_i64(num_t.as_str()) {
        Some(x) => {
            assert(i64::MIN <= x * mult <= i64::MAX);
            Some(x * mult)
        },
        None => None,
    }
}

// ---------------------------------------------------------------------------
// Property lists
// ---------------------------------------------------------------------------

/// Entries of a property list.
pub type Entries = Seq<(Seq<char>, PlistTree)>;

/// `d` with `k` set to the string `v` when it is present.
pub open spec fn put_opt(d: Entries, k: Seq<char>, v: Option<String>) -> Entries {
    match v {
        Some(x) => insert_pair(d, k, PlistTree::Str(x@)),
        None => d,
    }
}

/// The environment as a dictionary of strings.
pub open spec fn env_dict(ps: Seq<(Seq<char>, Seq<char>)>) -> Entries
    decreases ps.len(),
{
    if ps.len() == 0 {
        Seq::empty()
    } else {
        insert_pair(env_dict(ps.drop_last()), ps.last().0, PlistTree::Str(ps.last().1))
    }
}

/// `KeepAlive` from the restart policy: always keeps alive, on failure keeps alive
/// unless the exit succeeded, on success keeps alive unless it crashed, never sets
/// `false` for one-shot services only.
pub open spec fn keepalive_entries(d: Entries, restart: RestartPolicy, t: ServiceType) -> Entries {
    match restart.strategy {
        RestartStrategy::Always => insert_pair(d, "KeepAlive"@, PlistTree::Bool(true)),
        RestartStrategy::OnFailure => insert_pair(
            d,
            "KeepAlive"@,
            PlistTree::Dict(insert_pair(Seq::empty(), "SuccessfulExit"@, PlistTree::Bool(false))),
        ),
        RestartStrategy::OnSuccess => insert_pair(
            d,
            "KeepAlive"@,
            PlistTree::Dict(insert_pair(Seq::empty(), "Crashed"@, PlistTree::Bool(false))),
        ),
        RestartStrategy::Never => if t == ServiceType::Oneshot {
            insert_pair(d, "KeepAlive"@, PlistTree::Bool(false))
        } else {
            d
        },
    }
}

/// The path entry of one log stream: none for the journal, the file, `/dev/null`, or
/// a file under `~/Library/Logs` for an inherited stream.
pub open spec fn log_entry(d: Entries, key: Seq<char>, t: LogTarget, fallback: Seq<char>) -> Entries {
    match t {
        LogTarget::Journal => d,
        LogTarget::File(p) => insert_pair(d, key, PlistTree::Str(p@)),
        LogTarget::Null => insert_pair(d, key, PlistTree::Str("/dev/null"@)),
        LogTarget::Inherit => insert_pair(d, key, PlistTree::Str(fallback)),
    }
}

/// The log path entries of a service.
pub open spec fn logging_entries(d: Entries, logging: LoggingSpec, name: Seq<char>, home: Seq<char>) -> Entries {
    let dir = path_join(home, "Library/Logs"@);
    let d1 = log_entry(d, "StandardOutPath"@, logging.stdout, path_join(dir, name + ".stdout.log"@));
    log_entry(d1, "StandardErrorPath"@, logging.stderr, path_join(dir, name + ".stderr.log"@))
}

/// The process type a CPU weight suggests.
pub open spec fn process_type(w: nat) -> Seq<char> {
    if w <= 100 {
        "Background"@
    } else if w >= 5000 {
        "Interactive"@
    } else {
        "Standard"@
    }
}

/// `d` with `MemoryLock` set to the bytes of a memory size that reads as a number.
pub open spec fn memory_lock(d: Entries, m: Option<MemorySize>) -> Entries {
    match m {
        Some(x) => match memory_string_value(x.text()) {
            Some(b) => insert_pair(d, "MemoryLock"@, PlistTree::Int(b)),
            None => d,
        },
        None => d,
    }
}

/// `d` with `NumberOfProcesses` set when a task limit is present.
pub open spec fn process_limit(d: Entries, t: Option<u64>) -> Entries {
    match t {
        Some(x) => insert_pair(d, "NumberOfProcesses"@, PlistTree::Int(x as int)),
        None => d,
    }
}

/// The hard resource limits.
pub open spec fn hard_limits(r: ResourceLimits) -> Entries {
    process_limit(memory_lock(Seq::empty(), r.memory_max), r.tasks_max)
}

/// The soft resource limits.
pub open spec fn soft_limits(r: ResourceLimits) -> Entries {
    process_limit(memory_lock(Seq::empty(), r.memory_high), r.tasks_max)
}

/// The resource entries of a service.
pub open spec fn resource_entries(d: Entries, r: ResourceLimits) -> Entries {
    let d1 = match r.nice {
        Some(n) => insert_pair(d, "Nice"@, PlistTree::Int(n.val())),
        None => d,
    };
    let d2 = match r.cpu_weight {
        Some(w) => insert_pair(d1, "ProcessType"@, PlistTree::Str(process_type(w.val()))),
        None => d1,
    };
    let d3 = if soft_limits(r).len() > 0 {
        insert_pair(d2, "SoftResourceLimits"@, PlistTree::Dict(soft_limits(r)))
    } else {
        d2
    };
    if hard_limits(r).len() > 0 {
        insert_pair(d3, "HardResourceLimits"@, PlistTree::Dict(hard_limits(r)))
    } else {
        d3
    }
}

/// The raw overrides, in order, each replacing what was there.
pub open spec fn override_entries(d: Entries, over: Seq<(Seq<char>, JsonModel)>) -> Entries
    decreases over.len(),
{
    if over.len() == 0 {
        d
    } else {
        let acc = override_entries(d, over.drop_last());
        match json_plist(over.last().1) {
            Some(t) => insert_pair(acc, over.last().0, t),
            None => acc,
        }
    }
}

/// Whether launchd should start the service when it loads.
pub open spec fn runs_at_load(t: ServiceType) -> bool {
    t == ServiceType::Simple || t == ServiceType::Notify || t == ServiceType::Forking
}

/// The property list that a spec itself makes, before its launchd overrides, for a user
/// with home directory `home`.
pub open spec fn plist_base(spec: ServiceSpec, home: Seq<char>) -> Entries {
    let d1 = insert_pair(Seq::empty(), "Label"@, PlistTree::Str(spec.name@));
    let d2 = insert_pair(
        d1,
        "ProgramArguments"@,
        PlistTree::Array(
            seq![PlistTree::Str(spec.command@)] + spec.args@.map_values(|a: String| PlistTree::Str(a@)),
        ),
    );
    let d3 = put_opt(d2, "WorkingDirectory"@, spec.working_directory);
    let d4 = put_opt(d3, "UserName"@, spec.user);
    let d5 = put_opt(d4, "GroupName"@, spec.group);
    let d6 = if spec.environment.pairs().len() > 0 {
        insert_pair(d5, "EnvironmentVariables"@, PlistTree::Dict(env_dict(spec.environment.pairs())))
    } else {
        d5
    };
    let d7 = keepalive_entries(d6, spec.restart, spec.service_type);
    let d8 = if runs_at_load(spec.service_type) {
        insert_pair(d7, "RunAtLoad"@, PlistTree::Bool(true))
    } else {
        d7
    };
    let d9 = logging_entries(d8, spec.logging, spec.name@, home);
    let d10 = match spec.resources {
        Some(r) => resource_entries(d9, r),
        None => d9,
    };
    let d11 = insert_pair(d10, "TimeOut"@, PlistTree::Int(spec.timeout_stop_sec as int));
    let d12 = if spec.restart.delay_secs > 0 {
        insert_pair(d11, "ThrottleInterval"@, PlistTree::Int(spec.restart.delay_secs as int))
    } else {
        d11
    };
    d12
}

/// The property list of a spec, for a user with home directory `home`: what the spec
/// makes, then its launchd overrides stored over it.
pub open spec fn plist_of(spec: ServiceSpec, home: Seq<char>) -> Entries {
    override_entries(plist_base(spec, home), spec.overrides.launchd.pairs())
}

/// Every memory size of the limits reads within `i64`.
pub open spec fn memory_fits(res: Option<ResourceLimits>) -> bool {
    match res {
        Some(r) => (r.memory_max matches Some(m) ==> (memory_string_value(m.text()) matches Some(v)
            ==> i64::MIN <= v <= i64::MAX)) && (r.memory_high matches Some(m) ==> (memory_string_value(
            m.text(),
        ) matches Some(v) ==> i64::MIN <= v <= i64::MAX)),
        None => true,
    }
}

fn put_opt_string(d: &mut plist::Dictionary, k: &str, v: &Option<String>)
    ensures
        plist_entries(*final(d)) == put_opt(plist_entries(*old(d)), k@, *v),
{
    if let Some(x) = v {
        dict_insert(d, k.to_owned(), value_string(x.clone()));
    }
}

fn env_dictionary(env: &StrMap<String>) -> (d: plist::Dictionary)
    ensures
        plist_entries(d) == env_dict(env.pairs()),
{
    let mut d = dict_new();
    let n = env.len();
    let mut i: usize = 0;
    assert(env.pairs().take(0) =~= Seq::<(Seq<char>, Seq<char>)>::empty());
    while i < n
        invariant
            n == env.pairs().len(),
            i <= n,
            plist_entries(d) == env_dict(env.pairs().take(i as int)),
        decreases n - i,
    {
        dict_insert(&mut d, env.key_at(i).clone(), value_string(env.value_at(i).clone()));
        assert(env.pairs().take(i + 1).drop_last() =~= env.pairs().take(i as int));
        i = i + 1;
    }
    assert(env.pairs().take(n as int) =~= env.pairs());
    d
}

/// Sets `KeepAlive` from the restart policy and service type.
pub fn apply_keepalive(dict: &mut plist::Dictionary, restart: &RestartPolicy, svc_type: ServiceType)
    ensures
        plist_entries(*final(dict)) == keepalive_entries(plist_entries(*old(dict)), *restart, svc_type),
{
    match restart.strategy {
        RestartStrategy::Always => {
            dict_insert(dict, "KeepAlive".to_owned(), value_bool(true));
        },
        RestartStrategy::OnFailure => {
            let mut keepalive = dict_new();
            dict_insert(&mut keepalive, "SuccessfulExit".to_owned(), value_bool(false));
            dict_insert(dict, "KeepAlive".to_owned(), value_dict(keepalive));
        },
        RestartStrategy::OnSuccess => {
            let mut keepalive = dict_new();
            dict_insert(&mut keepalive, "Crashed".to_owned(), value_bool(false));
            dict_insert(dict, "KeepAlive".to_owned(), value_dict(keepalive));
        },
        RestartStrategy::Never => {
            if svc_type == ServiceType::Oneshot {
                dict_insert(dict, "KeepAlive".to_owned(), value_bool(false));
            }
        },
    }
}

fn apply_log_target(dict: &mut plist::Dictionary, key: &str, t: &LogTarget, fallback: &String)
    ensures
        plist_entries(*final(dict)) == log_entry(plist_entries(*old(dict)), key@, *t, fallback@),
{
    match t {
        LogTarget::Journal => {},
        LogTarget::File(p) => {
            dict_insert(dict, key.to_owned(), value_string(p.clone()));
        },
        LogTarget::Null => {
            dict_insert(dict, key.to_owned(), value_string("/dev/null".to_owned()));
        },
        LogTarget::Inherit => {
            dict_insert(dict, key.to_owned(), value_string(fallback.clone()));
        },
    }
}

/// Sets the log paths of a service named `name`, for a user with home directory `home`.
pub fn apply_logging(dict: &mut plist::Dictionary, logging: &LoggingSpec, name: &str, home: &str)
    ensures
        plist_entries(*final(dict)) == logging_entries(plist_entries(*old(dict)), *logging, name@, home@),
{
    let dir = join_path(home, "Library/Logs");
    let mut out_file = name.to_owned();
    out_file.append(".stdout.log");
    let out_path = join_path(dir.as_str(), out_file.as_str());
    let mut err_file = name.to_owned();
    err_file.append(".stderr.log");
    let err_path = join_path(dir.as_str(), err_file.as_str());
    apply_log_target(dict, "StandardOutPath", &logging.stdout, &out_path);
    apply_log_target(dict, "StandardErrorPath", &logging.stderr, &err_path);
}

fn apply_memory_lock(d: &mut plist::Dictionary, m: &Option<MemorySize>)
    requires
        m matches Some(x) ==> (memory_string_value(x.text()) matches Some(v) ==> i64::MIN <= v
            <= i64::MAX),
    ensures
        plist_entries(*final(d)) == memory_lock(plist_entries(*old(d)), *m),
{
    if let Some(x) = m {
        let t = x.to_string();
        if let Some(bytes) = parse_memory_string(t.as_str()) {
            dict_insert(d, "MemoryLock".to_owned(), value_int(bytes));
        }
    }
}

fn apply_process_limit(d: &mut plist::Dictionary, t: &Option<u64>)
    ensures
        plist_entries(*final(d)) == process_limit(plist_entries(*old(d)), *t),
{
    if let Some(x) = t {
        dict_insert(d, "NumberOfProcesses".to_owned(), value_uint(*x));
    }
}

/// Sets the resource entries: nice, process type, and soft and hard limits.
pub fn apply_resource_limits(dict: &mut plist::Dictionary, res: &ResourceLimits)
    requires
        memory_fits(Some(*res)),
    ensures
        plist_entries(*final(dict)) == resource_entries(plist_entries(*old(dict)), *res),
{
    if let Some(n) = &res.nice {
        dict_insert(dict, "Nice".to_owned(), value_int(n.value() as i64));
    }
    if let Some(w) = &res.cpu_weight {
        let v = w.value();
        let pt = if v <= 100 {
            "Background"
        } else if v >= 5000 {
            "Interactive"
        } else {
            "Standard"
        };
        dict_insert(dict, "ProcessType".to_owned(), value_string(pt.to_owned()));
    }
    let mut soft = dict_new();
    let mut hard = dict_new();
    apply_memory_lock(&mut hard, &res.memory_max);
    apply_memory_lock(&mut soft, &res.memory_high);
    apply_process_limit(&mut hard, &res.tasks_max);
    apply_process_limit(&mut soft, &res.tasks_max);
    if !dict_is_empty(&soft) {
        dict_insert(dict, "SoftResourceLimits".to_owned(), value_dict(soft));
    }
    if !dict_is_empty(&hard) {
        dict_insert(dict, "HardResourceLimits".to_owned(), value_dict(hard));
    }
}

fn apply_overrides(dict: &mut plist::Dictionary, over: &StrMap<JsonValue>)
    ensures
        plist_entries(*final(dict)) == override_entries(plist_entries(*old(dict)), over.pairs()),
{
    let ghost start = plist_entries(*dict);
    let n = over.len();
    let mut i: usize = 0;
    assert(over.pairs().take(0) =~= Seq::<(Seq<char>, JsonModel)>::empty());
    while i < n
        invariant
            n == over.pairs().len(),
            i <= n,
            plist_entries(*dict) == override_entries(start, over.pairs().take(i as int)),
        decreases n - i,
    {
        let v = over.value_at(i);
        match json_value_to_plist(v) {
            Some(p) => {
                dict_insert(dict, over.key_at(i).clone(), p);
            },
            None => {},
        }
        assert(over.pairs().take(i + 1).drop_last() =~= over.pairs().take(i as int));
        i = i + 1;
    }
    assert(over.pairs().take(n as int) =~= over.pairs());
}

proof fn lemma_env_dict_uid_free(ps: Seq<(Seq<char>, Seq<char>)>)
    ensures
        entries_uid_free(env_dict(ps)),
    decreases ps.len(),
{
    broadcast use lemma_insert_pair_uid_free;

    if ps.len() > 0 {
        lemma_env_dict_uid_free(ps.drop_last());
    }
}

proof fn lemma_override_entries_uid_free(d: Entries, over: Seq<(Seq<char>, JsonModel)>)
    requires
        entries_uid_free(d),
    ensures
        entries_uid_free(override_entries(d, over)),
    decreases over.len(),
{
    broadcast use lemma_insert_pair_uid_free;

    if over.len() > 0 {
        lemma_override_entries_uid_free(d, over.drop_last());
        lemma_json_plist_uid_free(over.last().1);
    }
}

/// The property list of a spec holds no UID, so it can always be written as XML.
pub proof fn lemma_plist_of_uid_free(spec: ServiceSpec, home: Seq<char>)
    ensures
        entries_uid_free(plist_of(spec, home)),
{
    broadcast use lemma_insert_pair_uid_free;

    let e: Entries = Seq::empty();
    assert(entries_uid_free(e));
    let args = seq![PlistTree::Str(spec.command@)] + spec.args@.map_values(|a: String| PlistTree::Str(a@));
    assert(uid_free(PlistTree::Array(args))) by {
        assert forall|i: int| 0 <= i < args.len() implies uid_free(#[trigger] args[i]) by {
            if i > 0 {
                assert(args[i] == PlistTree::Str(spec.args@[i - 1]@));
            }
        }
    }
    lemma_env_dict_uid_free(spec.environment.pairs());
    assert(uid_free(PlistTree::Dict(env_dict(spec.environment.pairs()))));
    assert(uid_free(PlistTree::Dict(insert_pair(e, "SuccessfulExit"@, PlistTree::Bool(false)))));
    assert(uid_free(PlistTree::Dict(insert_pair(e, "Crashed"@, PlistTree::Bool(false)))));
    if let Some(r) = spec.resources {
        assert(entries_uid_free(memory_lock(e, r.memory_high)));
        assert(entries_uid_free(memory_lock(e, r.memory_max)));
        assert(uid_free(PlistTree::Dict(soft_limits(r))));
        assert(uid_free(PlistTree::Dict(hard_limits(r))));
    }
    assert(entries_uid_free(plist_base(spec, home)));
    lemma_override_entries_uid_free(plist_base(spec, home), spec.overrides.launchd.pairs());
}

/// Overrides are stored last: a key among them whose value has a property-list form
/// reads as that value; any other key reads as before.
pub proof fn lemma_override_entries_lookup(d: Entries, over: Seq<(Seq<char>, JsonModel)>, key: Seq<char>)
    requires
        keys_of(over).no_duplicates(),
    ensures
        lookup(override_entries(d, over), key) == match lookup(over, key) {
            Some(j) => match json_plist(j) {
                Some(t) => Some(t),
                None => lookup(d, key),
            },
            None => lookup(d, key),
        },
    decreases over.len(),
{
    if over.len() > 0 {
        let init = over.drop_last();
        assert(keys_of(init).no_duplicates()) by {
            assert forall|a: int, b: int| 0 <= a < init.len() && 0 <= b < init.len() && a != b implies keys_of(
                init,
            )[a] != keys_of(init)[b] by {
                assert(keys_of(over)[a] != keys_of(over)[b]);
            }
        }
        lemma_override_entries_lookup(d, init, key);
        lemma_lookup_unique_last(over, key);
        if over.last().0 == key {
            assert forall|j: int| 0 <= j < init.len() implies init[j].0 != key by {
                assert(keys_of(over)[j] != keys_of(over)[over.len() - 1]);
            }
            lemma_lookup_first(init, key);
        }
        match json_plist(over.last().1) {
            Some(t) => {
                lemma_lookup_insert_pair(override_entries(d, init), over.last().0, t, key);
            },
            None => {},
        }
    }
}

/// A launchd override wins over what the spec itself puts in the property list: a key
/// that the spec's launchd overrides set to a value with a property-list form reads as
/// that value; any other key reads as the spec alone makes it.
pub proof fn lemma_launchd_override_wins(spec: ServiceSpec, home: Seq<char>, key: Seq<char>)
    requires
        keys_of(spec.overrides.launchd.pairs()).no_duplicates(),
    ensures
        lookup(plist_of(spec, home), key) == match lookup(spec.overrides.launchd.pairs(), key) {
            Some(j) => match json_plist(j) {
                Some(t) => Some(t),
                None => lookup(plist_base(spec, home), key),
            },
            None => lookup(plist_base(spec, home), key),
        },
{
    lemma_override_entries_lookup(plist_base(spec, home), spec.overrides.launchd.pairs(), key);
}

/// The keys that a spec's own entries set first differ from each other and from the
/// later keys of its property list.
proof fn lemma_plist_keys_distinct()
    ensures
        "Label"@ != "ProgramArguments"@,
        "Label"@ != "WorkingDirectory"@,
        "Label"@ != "UserName"@,
        "Label"@ != "GroupName"@,
        "Label"@ != "EnvironmentVariables"@,
        "Label"@ != "KeepAlive"@,
        "Label"@ != "RunAtLoad"@,
        "Label"@ != "StandardOutPath"@,
        "Label"@ != "StandardErrorPath"@,
        "Label"@ != "Nice"@,
        "Label"@ != "ProcessType"@,
        "Label"@ != "SoftResourceLimits"@,
        "Label"@ != "HardResourceLimits"@,
        "Label"@ != "TimeOut"@,
        "Label"@ != "ThrottleInterval"@,
        "ProgramArguments"@ != "Label"@,
        "ProgramArguments"@ != "WorkingDirectory"@,
        "ProgramArguments"@ != "UserName"@,
        "ProgramArguments"@ != "GroupName"@,
        "ProgramArguments"@ != "EnvironmentVariables"@,
        "ProgramArguments"@ != "KeepAlive"@,
        "ProgramArguments"@ != "RunAtLoad"@,
        "ProgramArguments"@ != "StandardOutPath"@,
        "ProgramArguments"@ != "StandardErrorPath"@,
        "ProgramArguments"@ != "Nice"@,
        "ProgramArguments"@ != "ProcessType"@,
        "ProgramArguments"@ != "SoftResourceLimits"@,
        "ProgramArguments"@ != "HardResourceLimits"@,
        "ProgramArguments"@ != "TimeOut"@,
        "ProgramArguments"@ != "ThrottleInterval"@,
        "WorkingDirectory"@ != "Label"@,
        "WorkingDirectory"@ != "ProgramArguments"@,
        "WorkingDirectory"@ != "UserName"@,
        "WorkingDirectory"@ != "GroupName"@,
        "WorkingDirectory"@ != "EnvironmentVariables"@,
        "WorkingDirectory"@ != "KeepAlive"@,
        "WorkingDirectory"@ != "RunAtLoad"@,
        "WorkingDirectory"@ != "StandardOutPath"@,
        "WorkingDirectory"@ != "StandardErrorPath"@,
        "WorkingDirectory"@ != "Nice"@,
        "WorkingDirectory"@ != "ProcessType"@,
        "WorkingDirectory"@ != "SoftResourceLimits"@,
        "WorkingDirectory"@ != "HardResourceLimits"@,
        "WorkingDirectory"@ != "TimeOut"@,
        "WorkingDirectory"@ != "ThrottleInterval"@,
        "UserName"@ != "Label"@,
        "UserName"@ != "ProgramArguments"@,
        "UserName"@ != "WorkingDirectory"@,
        "UserName"@ != "GroupName"@,
        "UserName"@ != "EnvironmentVariables"@,
        "UserName"@ != "KeepAlive"@,
        "UserName"@ != "RunAtLoad"@,
        "UserName"@ != "StandardOutPath"@,
        "UserName"@ != "StandardErrorPath"@,
        "UserName"@ != "Nice"@,
        "UserName"@ != "ProcessType"@,
        "UserName"@ != "SoftResourceLimits"@,
        "UserName"@ != "HardResourceLimits"@,
        "UserName"@ != "TimeOut"@,
        "UserName"@ != "ThrottleInterval"@,
        "GroupName"@ != "Label"@,
        "GroupName"@ != "ProgramArguments"@,
        "GroupName"@ != "WorkingDirectory"@,
        "GroupName"@ != "UserName"@,
        "GroupName"@ != "EnvironmentVariables"@,
        "GroupName"@ != "KeepAlive"@,
        "GroupName"@ != "RunAtLoad"@,
        "GroupName"@ != "StandardOutPath"@,
        "GroupName"@ != "StandardErrorPath"@,
        "GroupName"@ != "Nice"@,
        "GroupName"@ != "ProcessType"@,
        "GroupName"@ != "SoftResourceLimits"@,
        "GroupName"@ != "HardResourceLimits"@,
        "GroupName"@ != "TimeOut"@,
        "GroupName"@ != "ThrottleInterval"@,
        "EnvironmentVariables"@ != "Label"@,
        "EnvironmentVariables"@ != "ProgramArguments"@,
        "EnvironmentVariables"@ != "WorkingDirectory"@,
        "EnvironmentVariables"@ != "UserName"@,
        "EnvironmentVariables"@ != "GroupName"@,
        "EnvironmentVariables"@ != "KeepAlive"@,
        "EnvironmentVariables"@ != "RunAtLoad"@,
        "EnvironmentVariables"@ != "StandardOutPath"@,
        "EnvironmentVariables"@ != "StandardErrorPath"@,
        "EnvironmentVariables"@ != "Nice"@,
        "EnvironmentVariables"@ != "ProcessType"@,
        "EnvironmentVariables"@ != "SoftResourceLimits"@,
        "EnvironmentVariables"@ != "HardResourceLimits"@,
        "EnvironmentVariables"@ != "TimeOut"@,
        "EnvironmentVariables"@ != "ThrottleInterval"@,
        "KeepAlive"@ != "Label"@,
        "KeepAlive"@ != "ProgramArguments"@,
        "KeepAlive"@ != "WorkingDirectory"@,
        "KeepAlive"@ != "UserName"@,
        "KeepAlive"@ != "GroupName"@,
        "KeepAlive"@ != "EnvironmentVariables"@,
        "KeepAlive"@ != "RunAtLoad"@,
        "KeepAlive"@ != "StandardOutPath"@,
        "KeepAlive"@ != "StandardErrorPath"@,
        "KeepAlive"@ != "Nice"@,
        "KeepAlive"@ != "ProcessType"@,
        "KeepAlive"@ != "SoftResourceLimits"@,
        "KeepAlive"@ != "HardResourceLimits"@,
        "KeepAlive"@ != "TimeOut"@,
        "KeepAlive"@ != "ThrottleInterval"@,
        "RunAtLoad"@ != "Label"@,
        "RunAtLoad"@ != "ProgramArguments"@,
        "RunAtLoad"@ != "WorkingDirectory"@,
        "RunAtLoad"@ != "UserName"@,
        "RunAtLoad"@ != "GroupName"@,
        "RunAtLoad"@ != "EnvironmentVariables"@,
        "RunAtLoad"@ != "KeepAlive"@,
        "RunAtLoad"@ != "StandardOutPath"@,
        "RunAtLoad"@ != "StandardErrorPath"@,
        "RunAtLoad"@ != "Nice"@,
        "RunAtLoad"@ != "ProcessType"@,
        "RunAtLoad"@ != "SoftResourceLimits"@,
        "RunAtLoad"@ != "HardResourceLimits"@,
        "RunAtLoad"@ != "TimeOut"@,
        "RunAtLoad"@ != "ThrottleInterval"@,
        "StandardOutPath"@ != "Label"@,
        "StandardOutPath"@ != "ProgramArguments"@,
        "StandardOutPath"@ != "WorkingDirectory"@,
        "StandardOutPath"@ != "UserName"@,
        "StandardOutPath"@ != "GroupName"@,
        "StandardOutPath"@ != "EnvironmentVariables"@,
        "StandardOutPath"@ != "KeepAlive"@,
        "StandardOutPath"@ != "RunAtLoad"@,
        "StandardOutPath"@ != "StandardErrorPath"@,
        "StandardOutPath"@ != "Nice"@,
        "StandardOutPath"@ != "ProcessType"@,
        "StandardOutPath"@ != "SoftResourceLimits"@,
        "StandardOutPath"@ != "HardResourceLimits"@,
        "StandardOutPath"@ != "TimeOut"@,
        "StandardOutPath"@ != "ThrottleInterval"@,
        "StandardErrorPath"@ != "Label"@,
        "StandardErrorPath"@ != "ProgramArguments"@,
        "StandardErrorPath"@ != "WorkingDirectory"@,
        "StandardErrorPath"@ != "UserName"@,
        "StandardErrorPath"@ != "GroupName"@,
        "StandardErrorPath"@ != "EnvironmentVariables"@,
        "StandardErrorPath"@ != "KeepAlive"@,
        "StandardErrorPath"@ != "RunAtLoad"@,
        "StandardErrorPath"@ != "StandardOutPath"@,
        "StandardErrorPath"@ != "Nice"@,
        "StandardErrorPath"@ != "ProcessType"@,
        "StandardErrorPath"@ != "SoftResourceLimits"@,
        "StandardErrorPath"@ != "HardResourceLimits"@,
        "StandardErrorPath"@ != "TimeOut"@,
        "StandardErrorPath"@ != "ThrottleInterval"@,
        "Nice"@ != "Label"@,
        "Nice"@ != "ProgramArguments"@,
        "Nice"@ != "WorkingDirectory"@,
        "Nice"@ != "UserName"@,
        "Nice"@ != "GroupName"@,
        "Nice"@ != "EnvironmentVariables"@,
        "Nice"@ != "KeepAlive"@,
        "Nice"@ != "RunAtLoad"@,
        "Nice"@ != "StandardOutPath"@,
        "Nice"@ != "StandardErrorPath"@,
        "Nice"@ != "ProcessType"@,
        "Nice"@ != "SoftResourceLimits"@,
        "Nice"@ != "HardResourceLimits"@,
        "Nice"@ != "TimeOut"@,
        "Nice"@ != "ThrottleInterval"@,
        "ProcessType"@ != "Label"@,
        "ProcessType"@ != "ProgramArguments"@,
        "ProcessType"@ != "WorkingDirectory"@,
        "ProcessType"@ != "UserName"@,
        "ProcessType"@ != "GroupName"@,
        "ProcessType"@ != "EnvironmentVariables"@,
        "ProcessType"@ != "KeepAlive"@,
        "ProcessType"@ != "RunAtLoad"@,
        "ProcessType"@ != "StandardOutPath"@,
        "ProcessType"@ != "StandardErrorPath"@,
        "ProcessType"@ != "Nice"@,
        "ProcessType"@ != "SoftResourceLimits"@,
        "ProcessType"@ != "HardResourceLimits"@,
        "ProcessType"@ != "TimeOut"@,
        "ProcessType"@ != "ThrottleInterval"@,
        "TimeOut"@ != "Label"@,
        "TimeOut"@ != "ProgramArguments"@,
        "TimeOut"@ != "WorkingDirectory"@,
        "TimeOut"@ != "UserName"@,
        "TimeOut"@ != "GroupName"@,
        "TimeOut"@ != "EnvironmentVariables"@,
        "TimeOut"@ != "KeepAlive"@,
        "TimeOut"@ != "RunAtLoad"@,
        "TimeOut"@ != "StandardOutPath"@,
        "TimeOut"@ != "StandardErrorPath"@,
        "TimeOut"@ != "Nice"@,
        "TimeOut"@ != "ProcessType"@,
        "TimeOut"@ != "SoftResourceLimits"@,
        "TimeOut"@ != "HardResourceLimits"@,
        "TimeOut"@ != "ThrottleInterval"@,
        "ThrottleInterval"@ != "Label"@,
        "ThrottleInterval"@ != "ProgramArguments"@,
        "ThrottleInterval"@ != "WorkingDirectory"@,
        "ThrottleInterval"@ != "UserName"@,
        "ThrottleInterval"@ != "GroupName"@,
        "ThrottleInterval"@ != "EnvironmentVariables"@,
        "ThrottleInterval"@ != "KeepAlive"@,
        "ThrottleInterval"@ != "RunAtLoad"@,
        "ThrottleInterval"@ != "StandardOutPath"@,
        "ThrottleInterval"@ != "StandardErrorPath"@,
        "ThrottleInterval"@ != "Nice"@,
        "ThrottleInterval"@ != "ProcessType"@,
        "ThrottleInterval"@ != "SoftResourceLimits"@,
        "ThrottleInterval"@ != "HardResourceLimits"@,
        "ThrottleInterval"@ != "TimeOut"@,
{
    reveal_strlit("Label");
    assert("Label"@.len() == 5 && "Label"@[0] == 'L');
    reveal_strlit("ProgramArguments");
    assert("ProgramArguments"@.len() == 16 && "ProgramArguments"@[0] == 'P');
    reveal_strlit("WorkingDirectory");
    assert("WorkingDirectory"@.len() == 16 && "WorkingDirectory"@[0] == 'W');
    reveal_strlit("UserName");
    assert("UserName"@.len() == 8 && "UserName"@[0] == 'U');
    reveal_strlit("GroupName");
    assert("GroupName"@.len() == 9 && "GroupName"@[0] == 'G');
    reveal_strlit("EnvironmentVariables");
    assert("EnvironmentVariables"@.len() == 20 && "EnvironmentVariables"@[0] == 'E');
    reveal_strlit("KeepAlive");
    assert("KeepAlive"@.len() == 9 && "KeepAlive"@[0] == 'K');
    reveal_strlit("RunAtLoad");
    assert("RunAtLoad"@.len() == 9 && "RunAtLoad"@[0] == 'R');
    reveal_strlit("StandardOutPath");
    assert("StandardOutPath"@.len() == 15 && "StandardOutPath"@[0] == 'S');
    reveal_strlit("StandardErrorPath");
    assert("StandardErrorPath"@.len() == 17 && "StandardErrorPath"@[0] == 'S');
    reveal_strlit("Nice");
    assert("Nice"@.len() == 4 && "Nice"@[0] == 'N');
    reveal_strlit("ProcessType");
    assert("ProcessType"@.len() == 11 && "ProcessType"@[0] == 'P');
    reveal_strlit("SoftResourceLimits");
    assert("SoftResourceLimits"@.len() == 18 && "SoftResourceLimits"@[0] == 'S');
    reveal_strlit("HardResourceLimits");
    assert("HardResourceLimits"@.len() == 18 && "HardResourceLimits"@[0] == 'H');
    reveal_strlit("TimeOut");
    assert("TimeOut"@.len() == 7 && "TimeOut"@[0] == 'T');
    reveal_strlit("ThrottleInterval");
    assert("ThrottleInterval"@.len() == 16 && "ThrottleInterval"@[0] == 'T');
}

/// Storing another key leaves what `key` reads.
proof fn lemma_other_key(d: Entries, k: Seq<char>, v: PlistTree, key: Seq<char>)
    requires
        k != key,
    ensures
        lookup(insert_pair(d, k, v), key) == lookup(d, key),
{
    lemma_lookup_insert_pair(d, k, v, key);
}

/// The entries that name the job, its program, directory, user and group.
spec fn own_entries(spec: ServiceSpec) -> Entries {
    let named = insert_pair(Seq::empty(), "Label"@, PlistTree::Str(spec.name@));
    let program = insert_pair(
        named,
        "ProgramArguments"@,
        PlistTree::Array(
            seq![PlistTree::Str(spec.command@)] + spec.args@.map_values(|a: String| PlistTree::Str(a@)),
        ),
    );
    put_opt(
        put_opt(put_opt(program, "WorkingDirectory"@, spec.working_directory), "UserName"@, spec.user),
        "GroupName"@,
        spec.group,
    )
}

/// The entries through the environment.
spec fn env_stage(spec: ServiceSpec) -> Entries {
    if spec.environment.pairs().len() > 0 {
        insert_pair(own_entries(spec), "EnvironmentVariables"@, PlistTree::Dict(env_dict(spec.environment.pairs())))
    } else {
        own_entries(spec)
    }
}

/// The entries through `RunAtLoad`.
spec fn load_stage(spec: ServiceSpec) -> Entries {
    let kept = keepalive_entries(env_stage(spec), spec.restart, spec.service_type);
    if runs_at_load(spec.service_type) {
        insert_pair(kept, "RunAtLoad"@, PlistTree::Bool(true))
    } else {
        kept
    }
}

/// The entries a spec adds after `RunAtLoad` leave what any other key reads.
proof fn lemma_base_from_load(spec: ServiceSpec, home: Seq<char>, key: Seq<char>)
    requires
        key != "StandardOutPath"@,
        key != "StandardErrorPath"@,
        key != "Nice"@,
        key != "ProcessType"@,
        key != "SoftResourceLimits"@,
        key != "HardResourceLimits"@,
        key != "TimeOut"@,
        key != "ThrottleInterval"@,
    ensures
        lookup(plist_base(spec, home), key) == lookup(load_stage(spec), key),
{
    let e8 = load_stage(spec);
    let dir = path_join(home, "Library/Logs"@);
    let out_fallback = path_join(dir, spec.name@ + ".stdout.log"@);
    let err_fallback = path_join(dir, spec.name@ + ".stderr.log"@);
    let e8b = log_entry(e8, "StandardOutPath"@, spec.logging.stdout, out_fallback);
    lemma_log_entry_other(e8, "StandardOutPath"@, spec.logging.stdout, out_fallback, key);
    let e9 = logging_entries(e8, spec.logging, spec.name@, home);
    lemma_log_entry_other(e8b, "StandardErrorPath"@, spec.logging.stderr, err_fallback, key);
    assert(e9 == log_entry(e8b, "StandardErrorPath"@, spec.logging.stderr, err_fallback));
    let e10 = match spec.resources {
        Some(r) => resource_entries(e9, r),
        None => e9,
    };
    match spec.resources {
        Some(r) => lemma_resource_entries_other(e9, r, key),
        None => {},
    }
    let e11 = insert_pair(e10, "TimeOut"@, PlistTree::Int(spec.timeout_stop_sec as int));
    lemma_other_key(e10, "TimeOut"@, PlistTree::Int(spec.timeout_stop_sec as int), key);
    if spec.restart.delay_secs > 0 {
        lemma_other_key(e11, "ThrottleInterval"@, PlistTree::Int(spec.restart.delay_secs as int), key);
    }
    assert(plist_base(spec, home) == if spec.restart.delay_secs > 0 {
        insert_pair(e11, "ThrottleInterval"@, PlistTree::Int(spec.restart.delay_secs as int))
    } else {
        e11
    });
}

/// The entries a spec adds after its log paths leave what any other key reads.
proof fn lemma_base_from_logs(spec: ServiceSpec, home: Seq<char>, key: Seq<char>)
    requires
        key != "Nice"@,
        key != "ProcessType"@,
        key != "SoftResourceLimits"@,
        key != "HardResourceLimits"@,
        key != "TimeOut"@,
        key != "ThrottleInterval"@,
    ensures
        lookup(plist_base(spec, home), key) == lookup(
            logging_entries(load_stage(spec), spec.logging, spec.name@, home),
            key,
        ),
{
    let e9 = logging_entries(load_stage(spec), spec.logging, spec.name@, home);
    let e10 = match spec.resources {
        Some(r) => resource_entries(e9, r),
        None => e9,
    };
    match spec.resources {
        Some(r) => lemma_resource_entries_other(e9, r, key),
        None => {},
    }
    let e11 = insert_pair(e10, "TimeOut"@, PlistTree::Int(spec.timeout_stop_sec as int));
    lemma_other_key(e10, "TimeOut"@, PlistTree::Int(spec.timeout_stop_sec as int), key);
    if spec.restart.delay_secs > 0 {
        lemma_other_key(e11, "ThrottleInterval"@, PlistTree::Int(spec.restart.delay_secs as int), key);
    }
    assert(plist_base(spec, home) == if spec.restart.delay_secs > 0 {
        insert_pair(e11, "ThrottleInterval"@, PlistTree::Int(spec.restart.delay_secs as int))
    } else {
        e11
    });
}

/// A log path entry: the path for its key, what was there for any other key.
proof fn lemma_log_entry_lookup(d: Entries, k: Seq<char>, t: LogTarget, fallback: Seq<char>, key: Seq<char>)
    ensures
        lookup(log_entry(d, k, t, fallback), key) == if key == k {
            match t {
                LogTarget::Journal => lookup(d, key),
                LogTarget::File(p) => Some(PlistTree::Str(p@)),
                LogTarget::Null => Some(PlistTree::Str("/dev/null"@)),
                LogTarget::Inherit => Some(PlistTree::Str(fallback)),
            }
        } else {
            lookup(d, key)
        },
{
    match t {
        LogTarget::Journal => {},
        LogTarget::File(p) => lemma_lookup_insert_pair(d, k, PlistTree::Str(p@), key),
        LogTarget::Null => lemma_lookup_insert_pair(d, k, PlistTree::Str("/dev/null"@), key),
        LogTarget::Inherit => lemma_lookup_insert_pair(d, k, PlistTree::Str(fallback), key),
    }
}

/// What a key reads after the last entries of a spec: the throttle interval and the
/// stop timeout, over the resource entries.
proof fn lemma_base_late(spec: ServiceSpec, home: Seq<char>, key: Seq<char>)
    ensures
        lookup(plist_base(spec, home), key) == if key == "ThrottleInterval"@ && spec.restart.delay_secs > 0 {
            Some(PlistTree::Int(spec.restart.delay_secs as int))
        } else if key == "TimeOut"@ {
            Some(PlistTree::Int(spec.timeout_stop_sec as int))
        } else {
            match spec.resources {
                Some(r) => lookup(
                    resource_entries(logging_entries(load_stage(spec), spec.logging, spec.name@, home), r),
                    key,
                ),
                None => lookup(logging_entries(load_stage(spec), spec.logging, spec.name@, home), key),
            }
        },
{
    let e9 = logging_entries(load_stage(spec), spec.logging, spec.name@, home);
    let e10 = match spec.resources {
        Some(r) => resource_entries(e9, r),
        None => e9,
    };
    let e11 = insert_pair(e10, "TimeOut"@, PlistTree::Int(spec.timeout_stop_sec as int));
    lemma_lookup_insert_pair(e10, "TimeOut"@, PlistTree::Int(spec.timeout_stop_sec as int), key);
    if spec.restart.delay_secs > 0 {
        lemma_lookup_insert_pair(e11, "ThrottleInterval"@, PlistTree::Int(spec.restart.delay_secs as int), key);
    }
    assert(plist_base(spec, home) == if spec.restart.delay_secs > 0 {
        insert_pair(e11, "ThrottleInterval"@, PlistTree::Int(spec.restart.delay_secs as int))
    } else {
        e11
    });
}

/// What the nice value and the process type read among the resource entries.
proof fn lemma_resource_lookup(d: Entries, r: ResourceLimits, key: Seq<char>)
    requires
        key == "Nice"@ || key == "ProcessType"@,
    ensures
        lookup(resource_entries(d, r), key) == if key == "ProcessType"@ && r.cpu_weight is Some {
            Some(PlistTree::Str(process_type(r.cpu_weight->0.val())))
        } else if key == "Nice"@ && r.nice is Some {
            Some(PlistTree::Int(r.nice->0.val()))
        } else {
            lookup(d, key)
        },
{
    lemma_plist_keys_distinct();
    let d1 = match r.nice {
        Some(n) => insert_pair(d, "Nice"@, PlistTree::Int(n.val())),
        None => d,
    };
    match r.nice {
        Some(n) => lemma_lookup_insert_pair(d, "Nice"@, PlistTree::Int(n.val()), key),
        None => {},
    }
    let d2 = match r.cpu_weight {
        Some(w) => insert_pair(d1, "ProcessType"@, PlistTree::Str(process_type(w.val()))),
        None => d1,
    };
    match r.cpu_weight {
        Some(w) => lemma_lookup_insert_pair(d1, "ProcessType"@, PlistTree::Str(process_type(w.val())), key),
        None => {},
    }
    let d3 = if soft_limits(r).len() > 0 {
        insert_pair(d2, "SoftResourceLimits"@, PlistTree::Dict(soft_limits(r)))
    } else {
        d2
    };
    if soft_limits(r).len() > 0 {
        lemma_other_key(d2, "SoftResourceLimits"@, PlistTree::Dict(soft_limits(r)), key);
    }
    if hard_limits(r).len() > 0 {
        lemma_other_key(d3, "HardResourceLimits"@, PlistTree::Dict(hard_limits(r)), key);
    }
}

/// `KeepAlive` as the restart policy sets it, over entries that lack it.
proof fn lemma_keepalive_lookup(d: Entries, restart: RestartPolicy, t: ServiceType, key: Seq<char>)
    ensures
        key != "KeepAlive"@ ==> lookup(keepalive_entries(d, restart, t), key) == lookup(d, key),
        key == "KeepAlive"@ ==> lookup(keepalive_entries(d, restart, t), key) == match restart.strategy {
            RestartStrategy::Always => Some(PlistTree::Bool(true)),
            RestartStrategy::OnFailure => Some(
                PlistTree::Dict(insert_pair(Seq::empty(), "SuccessfulExit"@, PlistTree::Bool(false))),
            ),
            RestartStrategy::OnSuccess => Some(
                PlistTree::Dict(insert_pair(Seq::empty(), "Crashed"@, PlistTree::Bool(false))),
            ),
            RestartStrategy::Never => if t == ServiceType::Oneshot {
                Some(PlistTree::Bool(false))
            } else {
                lookup(d, key)
            },
        },
{
    match restart.strategy {
        RestartStrategy::Always => lemma_lookup_insert_pair(d, "KeepAlive"@, PlistTree::Bool(true), key),
        RestartStrategy::OnFailure => lemma_lookup_insert_pair(
            d,
            "KeepAlive"@,
            PlistTree::Dict(insert_pair(Seq::empty(), "SuccessfulExit"@, PlistTree::Bool(false))),
            key,
        ),
        RestartStrategy::OnSuccess => lemma_lookup_insert_pair(
            d,
            "KeepAlive"@,
            PlistTree::Dict(insert_pair(Seq::empty(), "Crashed"@, PlistTree::Bool(false))),
            key,
        ),
        RestartStrategy::Never => {
            if t == ServiceType::Oneshot {
                lemma_lookup_insert_pair(d, "KeepAlive"@, PlistTree::Bool(false), key);
            }
        },
    }
}

/// What a key reads after the entries through `RunAtLoad`, in terms of the entries that
/// name the job.
proof fn lemma_load_stage(spec: ServiceSpec, key: Seq<char>)
    ensures
        lookup(load_stage(spec), key) == if key == "RunAtLoad"@ && runs_at_load(spec.service_type) {
            Some(PlistTree::Bool(true))
        } else if key == "RunAtLoad"@ {
            lookup(own_entries(spec), key)
        } else if key == "KeepAlive"@ && (spec.restart.strategy != RestartStrategy::Never
            || spec.service_type == ServiceType::Oneshot) {
            lookup(keepalive_entries(Seq::empty(), spec.restart, spec.service_type), key)
        } else if key == "EnvironmentVariables"@ && spec.environment.pairs().len() > 0 {
            Some(PlistTree::Dict(env_dict(spec.environment.pairs())))
        } else {
            lookup(own_entries(spec), key)
        },
{
    lemma_plist_keys_distinct();
    let e6 = env_stage(spec);
    let e7 = keepalive_entries(e6, spec.restart, spec.service_type);
    if runs_at_load(spec.service_type) {
        lemma_lookup_insert_pair(e7, "RunAtLoad"@, PlistTree::Bool(true), key);
    }
    lemma_keepalive_lookup(e6, spec.restart, spec.service_type, key);
    lemma_keepalive_lookup(Seq::empty(), spec.restart, spec.service_type, key);
    if spec.environment.pairs().len() > 0 {
        lemma_lookup_insert_pair(
            own_entries(spec),
            "EnvironmentVariables"@,
            PlistTree::Dict(env_dict(spec.environment.pairs())),
            key,
        );
    }
}

/// A log path entry for another key leaves what `key` reads.
proof fn lemma_log_entry_other(d: Entries, k: Seq<char>, t: LogTarget, fallback: Seq<char>, key: Seq<char>)
    requires
        k != key,
    ensures
        lookup(log_entry(d, k, t, fallback), key) == lookup(d, key),
{
    match t {
        LogTarget::Journal => {},
        LogTarget::File(p) => lemma_other_key(d, k, PlistTree::Str(p@), key),
        LogTarget::Null => lemma_other_key(d, k, PlistTree::Str("/dev/null"@), key),
        LogTarget::Inherit => lemma_other_key(d, k, PlistTree::Str(fallback), key),
    }
}

/// The resource entries leave what any other key reads.
proof fn lemma_resource_entries_other(d: Entries, r: ResourceLimits, key: Seq<char>)
    requires
        key != "Nice"@,
        key != "ProcessType"@,
        key != "SoftResourceLimits"@,
        key != "HardResourceLimits"@,
    ensures
        lookup(resource_entries(d, r), key) == lookup(d, key),
{
    let d1 = match r.nice {
        Some(n) => insert_pair(d, "Nice"@, PlistTree::Int(n.val())),
        None => d,
    };
    match r.nice {
        Some(n) => lemma_other_key(d, "Nice"@, PlistTree::Int(n.val()), key),
        None => {},
    }
    let d2 = match r.cpu_weight {
        Some(w) => insert_pair(d1, "ProcessType"@, PlistTree::Str(process_type(w.val()))),
        None => d1,
    };
    match r.cpu_weight {
        Some(w) => lemma_other_key(d1, "ProcessType"@, PlistTree::Str(process_type(w.val())), key),
        None => {},
    }
    let d3 = if soft_limits(r).len() > 0 {
        insert_pair(d2, "SoftResourceLimits"@, PlistTree::Dict(soft_limits(r)))
    } else {
        d2
    };
    if soft_limits(r).len() > 0 {
        lemma_other_key(d2, "SoftResourceLimits"@, PlistTree::Dict(soft_limits(r)), key);
    }
    if hard_limits(r).len() > 0 {
        lemma_other_key(d3, "HardResourceLimits"@, PlistTree::Dict(hard_limits(r)), key);
    }
}

/// What a key reads among the entries that name the job: the last entry stored for it.
proof fn lemma_own_lookup(spec: ServiceSpec, key: Seq<char>)
    ensures
        lookup(own_entries(spec), key) == if key == "GroupName"@ && spec.group is Some {
            Some(PlistTree::Str(spec.group->0@))
        } else if key == "UserName"@ && spec.user is Some {
            Some(PlistTree::Str(spec.user->0@))
        } else if key == "WorkingDirectory"@ && spec.working_directory is Some {
            Some(PlistTree::Str(spec.working_directory->0@))
        } else if key == "ProgramArguments"@ {
            Some(
                PlistTree::Array(
                    seq![PlistTree::Str(spec.command@)] + spec.args@.map_values(|a: String| PlistTree::Str(a@)),
                ),
            )
        } else if key == "Label"@ {
            Some(PlistTree::Str(spec.name@))
        } else {
            None
        },
{
    let b1 = insert_pair(Seq::empty(), "Label"@, PlistTree::Str(spec.name@));
    let pa = PlistTree::Array(
        seq![PlistTree::Str(spec.command@)] + spec.args@.map_values(|a: String| PlistTree::Str(a@)),
    );
    let b2 = insert_pair(b1, "ProgramArguments"@, pa);
    let b3 = put_opt(b2, "WorkingDirectory"@, spec.working_directory);
    let b4 = put_opt(b3, "UserName"@, spec.user);
    lemma_lookup_insert_pair(Seq::empty(), "Label"@, PlistTree::Str(spec.name@), key);
    lemma_lookup_insert_pair(b1, "ProgramArguments"@, pa, key);
    match spec.working_directory {
        Some(w) => lemma_lookup_insert_pair(b2, "WorkingDirectory"@, PlistTree::Str(w@), key),
        None => {},
    }
    match spec.user {
        Some(u) => lemma_lookup_insert_pair(b3, "UserName"@, PlistTree::Str(u@), key),
        None => {},
    }
    match spec.group {
        Some(g) => lemma_lookup_insert_pair(b4, "GroupName"@, PlistTree::Str(g@), key),
        None => {},
    }
}

/// What the keys that name the job read in the property list a spec itself makes.
proof fn lemma_base_identity(spec: ServiceSpec, home: Seq<char>)
    ensures
        lookup(plist_base(spec, home), "UserName"@) == match spec.user {
            Some(u) => Some(PlistTree::Str(u@)),
            None => None,
        },
        lookup(plist_base(spec, home), "GroupName"@) == match spec.group {
            Some(g) => Some(PlistTree::Str(g@)),
            None => None,
        },
        lookup(plist_base(spec, home), "WorkingDirectory"@) == match spec.working_directory {
            Some(w) => Some(PlistTree::Str(w@)),
            None => None,
        },
        lookup(plist_base(spec, home), "Label"@) == Some(PlistTree::Str(spec.name@)),
{
    lemma_plist_keys_distinct();
    lemma_base_from_load(spec, home, "UserName"@);
    lemma_load_stage(spec, "UserName"@);
    lemma_own_lookup(spec, "UserName"@);
    lemma_base_from_load(spec, home, "GroupName"@);
    lemma_load_stage(spec, "GroupName"@);
    lemma_own_lookup(spec, "GroupName"@);
    lemma_base_from_load(spec, home, "WorkingDirectory"@);
    lemma_load_stage(spec, "WorkingDirectory"@);
    lemma_own_lookup(spec, "WorkingDirectory"@);
    lemma_base_from_load(spec, home, "Label"@);
    lemma_load_stage(spec, "Label"@);
    lemma_own_lookup(spec, "Label"@);
}

/// A job runs as the spec's user and group, in its working directory, under its name:
/// unless a launchd override sets the key, `UserName`, `GroupName` and
/// `WorkingDirectory` read as the spec's string when it has one and are absent
/// otherwise, and `Label` reads as the spec's name.
pub proof fn lemma_plist_identity(spec: ServiceSpec, home: Seq<char>)
    requires
        keys_of(spec.overrides.launchd.pairs()).no_duplicates(),
    ensures
        lookup(spec.overrides.launchd.pairs(), "UserName"@) is None ==> lookup(plist_of(spec, home), "UserName"@)
            == match spec.user {
            Some(u) => Some(PlistTree::Str(u@)),
            None => None,
        },
        lookup(spec.overrides.launchd.pairs(), "GroupName"@) is None ==> lookup(plist_of(spec, home), "GroupName"@)
            == match spec.group {
            Some(g) => Some(PlistTree::Str(g@)),
            None => None,
        },
        lookup(spec.overrides.launchd.pairs(), "WorkingDirectory"@) is None ==> lookup(
            plist_of(spec, home),
            "WorkingDirectory"@,
        ) == match spec.working_directory {
            Some(w) => Some(PlistTree::Str(w@)),
            None => None,
        },
        lookup(spec.overrides.launchd.pairs(), "Label"@) is None ==> lookup(plist_of(spec, home), "Label"@)
            == Some(PlistTree::Str(spec.name@)),
{
    lemma_base_identity(spec, home);
    lemma_launchd_override_wins(spec, home, "UserName"@);
    lemma_launchd_override_wins(spec, home, "GroupName"@);
    lemma_launchd_override_wins(spec, home, "WorkingDirectory"@);
    lemma_launchd_override_wins(spec, home, "Label"@);
}

/// A job runs its command with its arguments, in its environment, and is kept alive and
/// started at load as its restart policy and type say: unless a launchd override sets
/// the key, `ProgramArguments` reads as the command then the arguments;
/// `EnvironmentVariables` as the variables when there are any, and is absent otherwise;
/// `KeepAlive` as true for `Always`, as restarting only after an unsuccessful exit for
/// `OnFailure` and only after a crash for `OnSuccess`, as false for a one-shot service
/// that never restarts, and is absent otherwise; `RunAtLoad` as true for simple, notify
/// and forking services, and is absent otherwise.
pub proof fn lemma_plist_run_policy(spec: ServiceSpec, home: Seq<char>)
    requires
        keys_of(spec.overrides.launchd.pairs()).no_duplicates(),
    ensures
        lookup(spec.overrides.launchd.pairs(), "ProgramArguments"@) is None ==> lookup(
            plist_of(spec, home),
            "ProgramArguments"@,
        ) == Some(
            PlistTree::Array(
                seq![PlistTree::Str(spec.command@)] + spec.args@.map_values(|a: String| PlistTree::Str(a@)),
            ),
        ),
        lookup(spec.overrides.launchd.pairs(), "EnvironmentVariables"@) is None ==> lookup(
            plist_of(spec, home),
            "EnvironmentVariables"@,
        ) == if spec.environment.pairs().len() > 0 {
            Some(PlistTree::Dict(env_dict(spec.environment.pairs())))
        } else {
            None
        },
        lookup(spec.overrides.launchd.pairs(), "KeepAlive"@) is None ==> lookup(plist_of(spec, home), "KeepAlive"@)
            == match spec.restart.strategy {
            RestartStrategy::Always => Some(PlistTree::Bool(true)),
            RestartStrategy::OnFailure => Some(
                PlistTree::Dict(seq![("SuccessfulExit"@, PlistTree::Bool(false))]),
            ),
            RestartStrategy::OnSuccess => Some(PlistTree::Dict(seq![("Crashed"@, PlistTree::Bool(false))])),
            RestartStrategy::Never => if spec.service_type == ServiceType::Oneshot {
                Some(PlistTree::Bool(false))
            } else {
                None
            },
        },
        lookup(spec.overrides.launchd.pairs(), "RunAtLoad"@) is None ==> lookup(plist_of(spec, home), "RunAtLoad"@)
            == match spec.service_type {
            ServiceType::Simple | ServiceType::Notify | ServiceType::Forking => Some(PlistTree::Bool(true)),
            _ => None,
        },
{
    lemma_plist_keys_distinct();
    lemma_launchd_override_wins(spec, home, "ProgramArguments"@);
    lemma_launchd_override_wins(spec, home, "EnvironmentVariables"@);
    lemma_launchd_override_wins(spec, home, "KeepAlive"@);
    lemma_launchd_override_wins(spec, home, "RunAtLoad"@);
    lemma_base_from_load(spec, home, "ProgramArguments"@);
    lemma_base_from_load(spec, home, "EnvironmentVariables"@);
    lemma_base_from_load(spec, home, "KeepAlive"@);
    lemma_base_from_load(spec, home, "RunAtLoad"@);
    lemma_load_stage(spec, "ProgramArguments"@);
    lemma_load_stage(spec, "EnvironmentVariables"@);
    lemma_load_stage(spec, "KeepAlive"@);
    lemma_load_stage(spec, "RunAtLoad"@);
    lemma_own_lookup(spec, "ProgramArguments"@);
    lemma_own_lookup(spec, "EnvironmentVariables"@);
    lemma_own_lookup(spec, "KeepAlive"@);
    lemma_own_lookup(spec, "RunAtLoad"@);
    assert(insert_pair(Seq::empty(), "SuccessfulExit"@, PlistTree::Bool(false)) =~= seq![
        ("SuccessfulExit"@, PlistTree::Bool(false)),
    ]);
    assert(insert_pair(Seq::empty(), "Crashed"@, PlistTree::Bool(false)) =~= seq![
        ("Crashed"@, PlistTree::Bool(false)),
    ]);
    lemma_keepalive_lookup(Seq::empty(), spec.restart, spec.service_type, "KeepAlive"@);
}

/// Where a job's output and errors go: unless a launchd override sets the key, nothing
/// for the journal (launchd's own handling), the named file, `/dev/null`, or, for an
/// inherited stream, `<name>.stdout.log` / `<name>.stderr.log` under the user's
/// `Library/Logs`.
pub proof fn lemma_plist_log_paths(spec: ServiceSpec, home: Seq<char>)
    requires
        keys_of(spec.overrides.launchd.pairs()).no_duplicates(),
    ensures
        lookup(spec.overrides.launchd.pairs(), "StandardOutPath"@) is None ==> lookup(plist_of(spec, home), "StandardOutPath"@)
            == match spec.logging.stdout {
            LogTarget::Journal => None,
            LogTarget::File(p) => Some(PlistTree::Str(p@)),
            LogTarget::Null => Some(PlistTree::Str("/dev/null"@)),
            LogTarget::Inherit => Some(
                PlistTree::Str(path_join(path_join(home, "Library/Logs"@), spec.name@ + ".stdout.log"@)),
            ),
        },
        lookup(spec.overrides.launchd.pairs(), "StandardErrorPath"@) is None ==> lookup(plist_of(spec, home), "StandardErrorPath"@)
            == match spec.logging.stderr {
            LogTarget::Journal => None,
            LogTarget::File(p) => Some(PlistTree::Str(p@)),
            LogTarget::Null => Some(PlistTree::Str("/dev/null"@)),
            LogTarget::Inherit => Some(
                PlistTree::Str(path_join(path_join(home, "Library/Logs"@), spec.name@ + ".stderr.log"@)),
            ),
        },
{
    lemma_plist_keys_distinct();
    let dir = path_join(home, "Library/Logs"@);
    let e8 = load_stage(spec);
    let fo = path_join(dir, spec.name@ + ".stdout.log"@);
    let fe = path_join(dir, spec.name@ + ".stderr.log"@);
    let e8b = log_entry(e8, "StandardOutPath"@, spec.logging.stdout, fo);
    assert(logging_entries(e8, spec.logging, spec.name@, home) == log_entry(
        e8b,
        "StandardErrorPath"@,
        spec.logging.stderr,
        fe,
    ));
    lemma_launchd_override_wins(spec, home, "StandardOutPath"@);
    lemma_launchd_override_wins(spec, home, "StandardErrorPath"@);
    lemma_base_from_logs(spec, home, "StandardOutPath"@);
    lemma_base_from_logs(spec, home, "StandardErrorPath"@);
    lemma_log_entry_lookup(e8, "StandardOutPath"@, spec.logging.stdout, fo, "StandardOutPath"@);
    lemma_log_entry_lookup(e8, "StandardOutPath"@, spec.logging.stdout, fo, "StandardErrorPath"@);
    lemma_log_entry_lookup(e8b, "StandardErrorPath"@, spec.logging.stderr, fe, "StandardOutPath"@);
    lemma_log_entry_lookup(e8b, "StandardErrorPath"@, spec.logging.stderr, fe, "StandardErrorPath"@);
    lemma_load_stage(spec, "StandardOutPath"@);
    lemma_load_stage(spec, "StandardErrorPath"@);
    lemma_own_lookup(spec, "StandardOutPath"@);
    lemma_own_lookup(spec, "StandardErrorPath"@);
}

/// How long launchd waits and how the job is scheduled: unless a launchd override sets
/// the key, `TimeOut` reads as the stop timeout; `ThrottleInterval` as the restart delay
/// when there is one, and is absent otherwise; `Nice` as the nice value when one is set;
/// `ProcessType` as `Background` for a CPU weight up to 100, `Interactive` from 5000,
/// `Standard` in between, and is absent without a weight.
pub proof fn lemma_plist_scheduling(spec: ServiceSpec, home: Seq<char>)
    requires
        keys_of(spec.overrides.launchd.pairs()).no_duplicates(),
    ensures
        lookup(spec.overrides.launchd.pairs(), "TimeOut"@) is None ==> lookup(plist_of(spec, home), "TimeOut"@)
            == Some(PlistTree::Int(spec.timeout_stop_sec as int)),
        lookup(spec.overrides.launchd.pairs(), "ThrottleInterval"@) is None ==> lookup(
            plist_of(spec, home),
            "ThrottleInterval"@,
        ) == if spec.restart.delay_secs > 0 {
            Some(PlistTree::Int(spec.restart.delay_secs as int))
        } else {
            None
        },
        lookup(spec.overrides.launchd.pairs(), "Nice"@) is None ==> lookup(plist_of(spec, home), "Nice"@)
            == match spec.resources {
            Some(r) => match r.nice {
                Some(n) => Some(PlistTree::Int(n.val())),
                None => None,
            },
            None => None,
        },
        lookup(spec.overrides.launchd.pairs(), "ProcessType"@) is None ==> lookup(
            plist_of(spec, home),
            "ProcessType"@,
        ) == match spec.resources {
            Some(r) => match r.cpu_weight {
                Some(w) => Some(
                    PlistTree::Str(
                        if w.val() <= 100 {
                            "Background"@
                        } else if w.val() >= 5000 {
                            "Interactive"@
                        } else {
                            "Standard"@
                        },
                    ),
                ),
                None => None,
            },
            None => None,
        },
{
    lemma_plist_keys_distinct();
    let dir = path_join(home, "Library/Logs"@);
    let fo = path_join(dir, spec.name@ + ".stdout.log"@);
    let fe = path_join(dir, spec.name@ + ".stderr.log"@);
    let e8 = load_stage(spec);
    let e8b = log_entry(e8, "StandardOutPath"@, spec.logging.stdout, fo);
    let e9 = logging_entries(e8, spec.logging, spec.name@, home);
    assert(e9 == log_entry(e8b, "StandardErrorPath"@, spec.logging.stderr, fe));
    lemma_launchd_override_wins(spec, home, "TimeOut"@);
    lemma_launchd_override_wins(spec, home, "ThrottleInterval"@);
    lemma_launchd_override_wins(spec, home, "Nice"@);
    lemma_launchd_override_wins(spec, home, "ProcessType"@);
    lemma_base_late(spec, home, "TimeOut"@);
    lemma_base_late(spec, home, "ThrottleInterval"@);
    lemma_base_late(spec, home, "Nice"@);
    lemma_base_late(spec, home, "ProcessType"@);
    match spec.resources {
        Some(r) => {
            lemma_resource_entries_other(e9, r, "ThrottleInterval"@);
            lemma_resource_lookup(e9, r, "Nice"@);
            lemma_resource_lookup(e9, r, "ProcessType"@);
        },
        None => {},
    }
    lemma_log_entry_lookup(e8, "StandardOutPath"@, spec.logging.stdout, fo, "ThrottleInterval"@);
    lemma_log_entry_lookup(e8, "StandardOutPath"@, spec.logging.stdout, fo, "Nice"@);
    lemma_log_entry_lookup(e8, "StandardOutPath"@, spec.logging.stdout, fo, "ProcessType"@);
    lemma_log_entry_lookup(e8b, "StandardErrorPath"@, spec.logging.stderr, fe, "ThrottleInterval"@);
    lemma_log_entry_lookup(e8b, "StandardErrorPath"@, spec.logging.stderr, fe, "Nice"@);
    lemma_log_entry_lookup(e8b, "StandardErrorPath"@, spec.logging.stderr, fe, "ProcessType"@);
    lemma_load_stage(spec, "ThrottleInterval"@);
    lemma_load_stage(spec, "Nice"@);
    lemma_load_stage(spec, "ProcessType"@);
    lemma_own_lookup(spec, "ThrottleInterval"@);
    lemma_own_lookup(spec, "Nice"@);
    lemma_own_lookup(spec, "ProcessType"@);
}

/// The launchd property list of a spec, for a user with home directory `home`.
pub fn spec_to_plist(spec: &ServiceSpec, home: &str) -> (dict: plist::Dictionary)
    requires
        memory_fits(spec.resources),
    ensures
        plist_entries(dict) == plist_of(*spec, home@),
{
    let mut dict = dict_new();
    dict_insert(&mut dict, "Label".to_owned(), value_string(spec.name.clone()));
    let mut program_args: Vec<plist::Value> = Vec::new();
    program_args.push(value_string(spec.command.clone()));
    let mut i: usize = 0;
    while i < spec.args.len()
        invariant
            i <= spec.args@.len(),
            program_args@.map_values(|x: plist::Value| plist_model(x)) == seq![PlistTree::Str(spec.command@)]
                + spec.args@.take(i as int).map_values(|a: String| PlistTree::Str(a@)),
        decreases spec.args@.len() - i,
    {
        let ghost before = program_args@.map_values(|x: plist::Value| plist_model(x));
        let v = value_string(spec.args[i].clone());
        program_args.push(v);
        assert(program_args@.map_values(|x: plist::Value| plist_model(x)) =~= before.push(
            PlistTree::Str(spec.args@[i as int]@),
        ));
        assert(spec.args@.take(i + 1).map_values(|a: String| PlistTree::Str(a@)) =~= spec.args@.take(
            i as int,
        ).map_values(|a: String| PlistTree::Str(a@)).push(PlistTree::Str(spec.args@[i as int]@)));
        i = i + 1;
    }
    assert(spec.args@.take(spec.args@.len() as int) =~= spec.args@);
    dict_insert(&mut dict, "ProgramArguments".to_owned(), value_array(program_args));
    put_opt_string(&mut dict, "WorkingDirectory", &spec.working_directory);
    put_opt_string(&mut dict, "UserName", &spec.user);
    put_opt_string(&mut dict, "GroupName", &spec.group);
    if !spec.environment.is_empty() {
        let env = env_dictionary(&spec.environment);
        dict_insert(&mut dict, "EnvironmentVariables".to_owned(), value_dict(env));
    }
    apply_keepalive(&mut dict, &spec.restart, spec.service_type);
    let at_load = match spec.service_type {
        ServiceType::Simple | ServiceType::Notify | ServiceType::Forking => true,
        _ => false,
    };
    if at_load {
        dict_insert(&mut dict, "RunAtLoad".to_owned(), value_bool(true));
    }
    apply_logging(&mut dict, &spec.logging, spec.name.as_str(), home);
    if let Some(res) = &spec.resources {
        apply_resource_limits(&mut dict, res);
    }
    dict_insert(&mut dict, "TimeOut".to_owned(), value_uint(spec.timeout_stop_sec));
    if spec.restart.delay_secs > 0 {
        dict_insert(&mut dict, "ThrottleInterval".to_owned(), value_uint(spec.restart.delay_secs));
    }
    apply_overrides(&mut dict, &spec.overrides.launchd);
    dict
}

/// The XML document of a property list, as the text whose UTF-8 bytes it is, or a
/// serialization error.
pub fn dict_to_xml(dict: &plist::Dictionary) -> (r: Result<String, Error>)
    ensures
        r is Ok <==> entries_uid_free(plist_entries(*dict)),
        r matches Ok(s) ==> encode_utf8(s@) == plist_xml(plist_entries(*dict)),
        r matches Err(e) ==> e is Serialization,
{
    match write_xml(dict) {
        Ok(bytes) => match utf8_string(bytes) {
            Ok(s) => {
                proof {
                    decode_utf8_encode_utf8(bytes@);
                }
                Ok(s)
            },
            Err(detail) => {
                let mut msg = "plist UTF-8 conversion failed: ".to_owned();
                msg.append(detail.as_str());
                Err(Error::Serialization(msg))
            },
        },
        Err(detail) => {
            let mut msg = "plist serialization failed: ".to_owned();
            msg.append(detail.as_str());
            Err(Error::Serialization(msg))
        },
    }
}


// ---------------------------------------------------------------------------
// Reading `launchctl`
// ---------------------------------------------------------------------------

/// The state a `state = ...` field of `launchctl print` names.
pub open spec fn print_state(v: Seq<char>) -> ServiceState {
    if v == "running"@ {
        ServiceState::Running
    } else if v == "waiting"@ {
        ServiceState::Inactive
    } else if v == "not running"@ {
        ServiceState::Stopped
    } else {
        ServiceState::Unknown
    }
}

/// A PID field that names a process.
pub open spec fn positive_pid(v: Seq<char>) -> Option<u32> {
    match parse_unsigned(v, u32::MAX as nat) {
        Some(p) => if p > 0 {
            Some(p as u32)
        } else {
            None
        },
        None => None,
    }
}

/// An exit code field.
pub open spec fn exit_code_field(v: Seq<char>) -> Option<i32> {
    match parse_signed(v, i32::MIN as int, i32::MAX as int) {
        Some(x) => Some(x as i32),
        None => None,
    }
}

/// The state, PID and last exit code that the lines of `launchctl print` report; a
/// later field replaces an earlier one.
pub open spec fn print_fields(lines: Seq<Seq<char>>) -> (ServiceState, Option<u32>, Option<i32>)
    decreases lines.len(),
{
    if lines.len() == 0 {
        (ServiceState::Unknown, None, None)
    } else {
        let (s, p, e) = print_fields(lines.drop_last());
        let t = trim(lines.last());
        if starts_with(t, "state = "@) {
            (print_state(trim(t.skip("state = "@.len() as int))), p, e)
        } else if starts_with(t, "pid = "@) {
            (s, positive_pid(trim(t.skip("pid = "@.len() as int))), e)
        } else if starts_with(t, "last exit code = "@) {
            (s, p, exit_code_field(trim(t.skip("last exit code = "@.len() as int))))
        } else {
            (s, p, e)
        }
    }
}

/// The text of `t` after its first `k` characters, trimmed.
fn rest_trimmed(t: &str, k: usize) -> (r: String)
    requires
        k <= t@.len(),
    ensures
        r@ == trim(t@.skip(k as int)),
{
    let n = t.unicode_len();
    let rest = string_of(t, k, n);
    assert(rest@ =~= t@.skip(k as int));
    trimmed(rest.as_str())
}

/// Reads the state, PID and last exit code from `launchctl print` output.
pub fn parse_launchctl_print(output: &str) -> (r: (ServiceState, Option<u32>, Option<i32>))
    ensures
        r == print_fields(lines_of(output@)),
{
    let ls = lines(output);
    let ghost lv = ls@.map_values(|x: String| x@);
    let mut state = ServiceState::Unknown;
    let mut pid: Option<u32> = None;
    let mut exit_code: Option<i32> = None;
    let mut i: usize = 0;
    assert(lv.take(0) =~= Seq::<Seq<char>>::empty());
    while i < ls.len()
        invariant
            lv == ls@.map_values(|x: String| x@),
            i <= ls@.len(),
            (state, pid, exit_code) == print_fields(lv.take(i as int)),
        decreases ls@.len() - i,
    {
        assert(lv.take(i + 1).drop_last() =~= lv.take(i as int));
        assert(lv.take(i + 1).last() == ls@[i as int]@);
        let t = trimmed(ls[i].as_str());
        if has_prefix(t.as_str(), "state = ") {
            let v = rest_trimmed(t.as_str(), "state = ".unicode_len());
            state = if str_eq(v.as_str(), "running") {
                ServiceState::Running
            } else if str_eq(v.as_str(), "waiting") {
                ServiceState::Inactive
            } else if str_eq(v.as_str(), "not running") {
                ServiceState::Stopped
            } else {
                ServiceState::Unknown
            };
        } else if has_prefix(t.as_str(), "pid = ") {
            let v = rest_trimmed(t.as_str(), "pid = ".unicode_len());
            pid = match parse_u32(v.as_str()) {
                Some(p) => if p > 0 {
                    Some(p)
                } else {
                    None
                },
                None => None,
            };
        } else if has_prefix(t.as_str(), "last exit code = ") {
            let v = rest_trimmed(t.as_str(), "last exit code = ".unicode_len());
            exit_code = parse_i32(v.as_str());
        }
        i = i + 1;
    }
    assert(lv.take(ls@.len() as int) =~= lv);
    (state, pid, exit_code)
}

/// The status of service `name` from `launchctl print` output, or, when the service
/// is not loaded, an inactive status.
pub fn status_from_print(name: &str, output: Option<&str>) -> (s: ServiceStatus)
    ensures
        s.name@ == name@,
        match output {
            Some(text) => {
                let f = print_fields(lines_of(text@));
                s.state == f.0 && s.pid == f.1 && s.exit_code == f.2
            },
            None => s.state == ServiceState::Inactive && s.pid is None && s.exit_code is None,
        },
        s.started_at is None,
        s.uptime_secs is None,
        s.restart_count == 0,
        s.health == HealthState::Unknown,
        s.backend@ == "launchd"@,
        s.memory_bytes is None,
{
    let (state, pid, exit_code) = match output {
        Some(text) => parse_launchctl_print(text),
        None => (ServiceState::Inactive, None, None),
    };
    ServiceStatus {
        name: name.to_owned(),
        state,
        pid,
        exit_code,
        started_at: None,
        uptime_secs: None,
        restart_count: 0,
        health: HealthState::Unknown,
        backend: "launchd".to_owned(),
        memory_bytes: None,
    }
}

/// The state of a listed job: running with a PID, stopped after exit code 0, failed
/// after another exit code, inactive otherwise.
pub open spec fn listed_state(pid: Option<u32>, exit_code: Option<i32>) -> ServiceState {
    if pid is Some {
        ServiceState::Running
    } else if exit_code == Some(0i32) {
        ServiceState::Stopped
    } else if exit_code is Some {
        ServiceState::Failed
    } else {
        ServiceState::Inactive
    }
}

/// A row of `launchctl list` (`PID<tab>Status<tab>Label`): label, PID, exit code.
pub open spec fn list_row(line: Seq<char>) -> Option<(Seq<char>, Option<u32>, Option<i32>)> {
    let parts = split_on(line, '\t');
    if parts.len() >= 3 {
        Some((trim(parts[2]), positive_pid(trim(parts[0])), exit_code_field(trim(parts[1]))))
    } else {
        None
    }
}

/// The rows of `launchctl list`, after its header line.
pub open spec fn list_rows(lines: Seq<Seq<char>>) -> Seq<(Seq<char>, Option<u32>, Option<i32>)>
    decreases lines.len(),
{
    if lines.len() <= 1 {
        Seq::empty()
    } else {
        let rest = list_rows(lines.drop_last());
        match list_row(lines.last()) {
            Some(r) => rest.push(r),
            None => rest,
        }
    }
}

/// Where the property list in `bytes` sends standard output: its `StandardOutPath`
/// string, if it is a dictionary that has one.
pub fn standard_out_path(bytes: &[u8]) -> (r: Option<String>)
    ensures
        match plist_read(bytes@) {
            Some(entries) => match (r, entry_string(entries, "StandardOutPath"@)) {
                (Some(p), Some(q)) => p@ == q,
                (None, None) => true,
                _ => false,
            },
            None => r is None,
        },
{
    match read_dictionary(bytes) {
        Some(d) => dict_string(&d, "StandardOutPath"),
        None => None,
    }
}

/// The jobs listed by `launchctl list`.
pub fn parse_launchctl_list(output: &str) -> (r: Vec<ServiceStatus>)
    ensures
        r@.len() == list_rows(lines_of(output@)).len(),
        forall|i: int|
            0 <= i < r@.len() ==> {
                let e = #[trigger] list_rows(lines_of(output@))[i];
                &&& r@[i].name@ == e.0
                &&& r@[i].pid == e.1
                &&& r@[i].exit_code == e.2
                &&& r@[i].state == listed_state(e.1, e.2)
                &&& r@[i].started_at is None
                &&& r@[i].uptime_secs is None
                &&& r@[i].restart_count == 0
                &&& r@[i].health == HealthState::Unknown
                &&& r@[i].backend@ == "launchd"@
                &&& r@[i].memory_bytes is None
            },
{
    let ls = lines(output);
    let ghost lv = ls@.map_values(|x: String| x@);
    let mut out: Vec<ServiceStatus> = Vec::new();
    if ls.len() == 0 {
        return out;
    }
    let mut i: usize = 1;
    assert(list_rows(lv.take(1)) =~= Seq::<(Seq<char>, Option<u32>, Option<i32>)>::empty());
    while i < ls.len()
        invariant
            lv == ls@.map_values(|x: String| x@),
            1 <= i <= ls@.len(),
            out@.len() == list_rows(lv.take(i as int)).len(),
            forall|j: int|
                0 <= j < out@.len() ==> {
                    let e = #[trigger] list_rows(lv.take(i as int))[j];
                    &&& out@[j].name@ == e.0
                    &&& out@[j].pid == e.1
                    &&& out@[j].exit_code == e.2
                    &&& out@[j].state == listed_state(e.1, e.2)
                    &&& out@[j].started_at is None
                    &&& out@[j].uptime_secs is None
                    &&& out@[j].restart_count == 0
                    &&& out@[j].health == HealthState::Unknown
                    &&& out@[j].backend@ == "launchd"@
                    &&& out@[j].memory_bytes is None
                },
        decreases ls@.len() - i,
    {
        assert(lv.take(i + 1).drop_last() =~= lv.take(i as int));
        assert(lv.take(i + 1).last() == ls@[i as int]@);
        let parts = split_chars(ls[i].as_str(), '\t');
        if parts.len() >= 3 {
            let p0 = trimmed(parts[0].as_str());
            let p1 = trimmed(parts[1].as_str());
            let label = trimmed(parts[2].as_str());
            let pid = match parse_u32(p0.as_str()) {
                Some(p) => if p > 0 {
                    Some(p)
                } else {
                    None
                },
                None => None,
            };
            let exit_code = parse_i32(p1.as_str());
            let state = if pid.is_some() {
                ServiceState::Running
            } else if exit_code == Some(0i32) {
                ServiceState::Stopped
            } else if exit_code.is_some() {
                ServiceState::Failed
            } else {
                ServiceState::Inactive
            };
            out.push(
                ServiceStatus {
                    name: label,
                    state,
                    pid,
                    exit_code,
                    started_at: None,
                    uptime_secs: None,
                    restart_count: 0,
                    health: HealthState::Unknown,
                    backend: "launchd".to_owned(),
                    memory_bytes: None,
                },
            );
        }
        i = i + 1;
    }
    assert(lv.take(ls@.len() as int) =~= lv);
    out
}

/// The last `n` lines of `all`.
pub fn tail_lines(all: &Vec<String>, n: u32) -> (r: Vec<String>)
    ensures
        str_views(r@) == str_views(all@).skip(
            if all@.len() > n {
                all@.len() - n
            } else {
                0
            },
        ),
{
    let len = all.len();
    let start: usize = if len > n as usize {
        len - n as usize
    } else {
        0
    };
    let mut out: Vec<String> = Vec::new();
    let mut i: usize = start;
    while i < len
        invariant
            start <= i <= len,
            len == all@.len(),
            str_views(out@) == str_views(all@).subrange(start as int, i as int),
        decreases len - i,
    {
        let ghost before = out@;
        let c = all[i].clone();
        out.push(c);
        assert(str_views(out@) =~= str_views(before).push(all@[i as int]@));
        assert(str_views(out@) =~= str_views(all@).subrange(start as int, i + 1));
        i = i + 1;
    }
    assert(str_views(all@).subrange(start as int, len as int) =~= str_views(all@).skip(start as int));
    out
}

/// The message when no logs can be found for service `name`.
pub fn no_logs_message(name: &str) -> (r: String)
    ensures
        r@ == "No logs available for "@ + name@ + " \u{2014} configure StandardOutPath in the service spec"@,
{
    let mut r = "No logs available for ".to_owned();
    r.append(name);
    r.append(" \u{2014} configure StandardOutPath in the service spec");
    r
}

/// The `log show` predicate for the processes of service `name`.
pub fn log_predicate(name: &str) -> (r: String)
    ensures
        r@ == "processImagePath contains '"@ + name@ + "'"@,
{
    let mut r = "processImagePath contains '".to_owned();
    r.append(name);
    r.append("'");
    r
}

/// The message when a service to reload has no process.
pub fn not_running_message(name: &str) -> (r: String)
    ensures
        r@ == "service "@ + name@ + " is not running, cannot reload"@,
{
    let mut r = "service ".to_owned();
    r.append(name);
    r.append(" is not running, cannot reload");
    r
}

} // verus!
