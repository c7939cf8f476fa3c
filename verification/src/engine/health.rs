//! Health probing: what each kind of check does, and what its outcome means.
//!
//! The probing itself (connecting, running, looking at the file system) happens
//! outside; this module decides what to probe and reads the outcome.
use vstd::prelude::*;

use crate::text::{
    dec_int, lines, lines_of, parse_unsigned, split_once, split_once_char, str_views, strip_prefixes,
    trim_prefixes, words, words_of,
};
use crate::types::health_check::HealthCheckSpec;

verus! {

/// The health checker that handles every kind of check.
pub struct DefaultHealthChecker;

impl DefaultHealthChecker {
    /// A health checker.
    pub fn new() -> (r: DefaultHealthChecker) {
        DefaultHealthChecker
    }

    /// The checker's name.
    pub fn name(&self) -> (r: &'static str)
        ensures
            r@ == "default"@,
    {
        "default"
    }
}

impl Default for DefaultHealthChecker {
    fn default() -> (r: DefaultHealthChecker) {
        DefaultHealthChecker::new()
    }
}

/// Whether a service passed a check, and why not.
pub struct HealthVerdict {
    /// Whether the check passed.
    pub healthy: bool,
    /// Why the check failed.
    pub message: Option<String>,
}

/// What one check does.
pub enum Probe {
    /// Send `request` to `host_port` and read the reply, within `timeout_secs`.
    Http { host_port: String, request: String, timeout_secs: u64 },
    /// Connect to `address` within `timeout_secs`.
    Tcp { address: String, timeout_secs: u64 },
    /// Run `command` with `args`.
    Run { command: String, args: Vec<String> },
    /// Look whether `path` exists.
    FileExists { path: String },
}

/// An endpoint without its scheme: leading `http://`, then leading `https://`, removed.
pub open spec fn endpoint_rest(endpoint: Seq<char>) -> Seq<char> {
    strip_prefixes(strip_prefixes(endpoint, "http://"@), "https://"@)
}

/// The `host:port` part of an endpoint.
pub open spec fn endpoint_host_port(endpoint: Seq<char>) -> Seq<char> {
    match split_once(endpoint_rest(endpoint), '/') {
        Some((a, b)) => a,
        None => endpoint_rest(endpoint),
    }
}

/// The request path of an endpoint, with its leading `/`.
pub open spec fn endpoint_path(endpoint: Seq<char>) -> Seq<char> {
    "/"@ + match split_once(endpoint_rest(endpoint), '/') {
        Some((a, b)) => b,
        None => Seq::empty(),
    }
}

/// The host of a `host:port`.
pub open spec fn host_of(host_port: Seq<char>) -> Seq<char> {
    match split_once(host_port, ':') {
        Some((a, b)) => a,
        None => host_port,
    }
}

/// The `HEAD` request sent to check an endpoint.
pub open spec fn head_request_text(path: Seq<char>, host: Seq<char>) -> Seq<char> {
    "HEAD "@ + path + " HTTP/1.1\r\nHost: "@ + host + "\r\nConnection: close\r\n\r\n"@
}

/// The `host:port`, path and host of an HTTP endpoint.
pub fn http_target(endpoint: &str) -> (r: (String, String, String))
    ensures
        r.0@ == endpoint_host_port(endpoint@),
        r.1@ == endpoint_path(endpoint@),
        r.2@ == host_of(endpoint_host_port(endpoint@)),
{
    let a = trim_prefixes(endpoint, "http://");
    let url = trim_prefixes(a.as_str(), "https://");
    let (host_port, rest) = match split_once_char(url.as_str(), '/') {
        Some((h, p)) => (h, p),
        None => (url.clone(), String::new()),
    };
    let mut path = "/".to_owned();
    path.append(rest.as_str());
    let host = match split_once_char(host_port.as_str(), ':') {
        Some((h, p)) => h,
        None => host_port.clone(),
    };
    proof {
        if split_once(endpoint_rest(endpoint@), '/') is None {
            assert(rest@ =~= Seq::<char>::empty());
        }
    }
    (host_port, path, host)
}

/// The `HEAD` request for `path` on `host`.
pub fn head_request(path: &str, host: &str) -> (r: String)
    ensures
        r@ == head_request_text(path@, host@),
{
    let mut r = "HEAD ".to_owned();
    r.append(path);
    r.append(" HTTP/1.1\r\nHost: ");
    r.append(host);
    r.append("\r\nConnection: close\r\n\r\n");
    r
}

/// Whether the status line of an HTTP reply carries a 2xx or 3xx code.
pub open spec fn response_ok(response: Seq<char>) -> bool {
    let ls = lines_of(response);
    ls.len() > 0 && words_of(ls[0]).len() > 1 && match parse_unsigned(words_of(ls[0])[1], u16::MAX as nat) {
        Some(c) => 200 <= c < 400,
        None => false,
    }
}

/// Whether the status line of an HTTP reply carries a 2xx or 3xx code.
pub fn http_response_ok(response: &str) -> (r: bool)
    ensures
        r == response_ok(response@),
{
    let ls = lines(response);
    if ls.len() == 0 {
        return false;
    }
    let ws = words(ls[0].as_str());
    if ws.len() <= 1 {
        return false;
    }
    match crate::text::parse_u32(ws[1].as_str()) {
        Some(c) => {
            proof {
                if c <= 65535 {
                    assert(parse_unsigned(ws@[1]@, u16::MAX as nat) == Some(c as nat));
                } else {
                    assert(parse_unsigned(ws@[1]@, u16::MAX as nat) is None);
                }
            }
            c <= 65535 && 200 <= c && c < 400
        },
        None => {
            assert(parse_unsigned(ws@[1]@, u16::MAX as nat) is None);
            false
        },
    }
}

/// What checking `spec` does: HTTP within its timeout, TCP within five seconds, a
/// command, or a look at a path.
pub fn probe_for(spec: &HealthCheckSpec) -> (p: Probe)
    ensures
        match (*spec, p) {
            (
                HealthCheckSpec::Http { endpoint, timeout_secs, .. },
                Probe::Http { host_port, request, timeout_secs: t },
            ) => host_port@ == endpoint_host_port(endpoint@) && request@ == head_request_text(
                endpoint_path(endpoint@),
                host_of(endpoint_host_port(endpoint@)),
            ) && t == timeout_secs,
            (HealthCheckSpec::Tcp { address, .. }, Probe::Tcp { address: a, timeout_secs: t }) => a@
                == address@ && t == 5,
            (HealthCheckSpec::Command { command, args, .. }, Probe::Run { command: c, args: a }) => c@
                == command@ && a@ == args@,
            (HealthCheckSpec::File { path, .. }, Probe::FileExists { path: q }) => q@ == path@,
            _ => false,
        },
{
    match spec {
        HealthCheckSpec::Http { endpoint, timeout_secs, .. } => {
            let (host_port, path, host) = http_target(endpoint.as_str());
            let request = head_request(path.as_str(), host.as_str());
            Probe::Http { host_port, request, timeout_secs: *timeout_secs }
        },
        HealthCheckSpec::Tcp { address, .. } => Probe::Tcp { address: address.clone(), timeout_secs: 5 },
        HealthCheckSpec::Command { command, args, .. } => Probe::Run {
            command: command.clone(),
            args: crate::types::health_check::copy_strings(args),
        },
        HealthCheckSpec::File { path, .. } => Probe::FileExists { path: path.clone() },
    }
}

/// How an HTTP probe ended.
pub enum HttpOutcome {
    /// A reply came back (its first bytes, as text).
    Reply(String),
    /// Connecting, sending or reading failed.
    Failed(String),
    /// The timeout passed first.
    TimedOut,
}

/// How a TCP probe ended.
pub enum TcpOutcome {
    Connected,
    Failed(String),
    TimedOut,
}

/// How a command probe ended.
pub enum CommandOutcome {
    /// The command exited; its exit code, if it was not killed by a signal.
    Exited { success: bool, code: Option<i32> },
    /// The command could not be run.
    Failed(String),
}

/// The message of a failed HTTP check.
pub open spec fn http_message(o: HttpOutcome) -> Option<Seq<char>> {
    match o {
        HttpOutcome::Reply(r) => if response_ok(r@) {
            None
        } else {
            Some("HTTP check returned non-2xx/3xx"@)
        },
        HttpOutcome::Failed(e) => Some("HTTP check error: "@ + e@),
        HttpOutcome::TimedOut => Some("HTTP check timed out"@),
    }
}

/// The message of a failed TCP check.
pub open spec fn tcp_message(o: TcpOutcome) -> Option<Seq<char>> {
    match o {
        TcpOutcome::Connected => None,
        TcpOutcome::Failed(e) => Some("TCP connect failed: "@ + e@),
        TcpOutcome::TimedOut => Some("TCP connect timed out"@),
    }
}

/// The message of a failed command check.
pub open spec fn command_message(o: CommandOutcome) -> Option<Seq<char>> {
    match o {
        CommandOutcome::Exited { success, code } => if success {
            None
        } else {
            Some(
                "command exited with "@ + match code {
                    Some(c) => dec_int(c as int),
                    None => "signal"@,
                },
            )
        },
        CommandOutcome::Failed(e) => Some("command failed: "@ + e@),
    }
}

/// Whether a verdict is healthy exactly when it has no message, which is `m`.
pub open spec fn verdict_is(v: HealthVerdict, m: Option<Seq<char>>) -> bool {
    &&& v.healthy == (m is None)
    &&& match (v.message, m) {
        (Some(x), Some(y)) => x@ == y,
        (None, None) => true,
        _ => false,
    }
}

fn failed(msg: String) -> (v: HealthVerdict)
    ensures
        verdict_is(v, Some(msg@)),
{
    HealthVerdict { healthy: false, message: Some(msg) }
}

fn passed() -> (v: HealthVerdict)
    ensures
        verdict_is(v, None),
{
    HealthVerdict { healthy: true, message: None }
}

fn prefixed(prefix: &str, detail: &str) -> (r: String)
    ensures
        r@ == prefix@ + detail@,
{
    let mut r = prefix.to_owned();
    r.append(detail);
    r
}

/// The verdict of an HTTP check.
pub fn http_verdict(o: &HttpOutcome) -> (v: HealthVerdict)
    ensures
        verdict_is(v, http_message(*o)),
{
    match o {
        HttpOutcome::Reply(r) => if http_response_ok(r.as_str()) {
            passed()
        } else {
            failed("HTTP check returned non-2xx/3xx".to_owned())
        },
        HttpOutcome::Failed(e) => failed(prefixed("HTTP check error: ", e.as_str())),
        HttpOutcome::TimedOut => failed("HTTP check timed out".to_owned()),
    }
}

/// The verdict of a TCP check.
pub fn tcp_verdict(o: &TcpOutcome) -> (v: HealthVerdict)
    ensures
        verdict_is(v, tcp_message(*o)),
{
    match o {
        TcpOutcome::Connected => passed(),
        TcpOutcome::Failed(e) => failed(prefixed("TCP connect failed: ", e.as_str())),
        TcpOutcome::TimedOut => failed("TCP connect timed out".to_owned()),
    }
}

/// The verdict of a command check.
pub fn command_verdict(o: &CommandOutcome) -> (v: HealthVerdict)
    ensures
        verdict_is(v, command_message(*o)),
{
    match o {
        CommandOutcome::Exited { success, code } => if *success {
            passed()
        } else {
            let mut m = "command exited with ".to_owned();
            match code {
                Some(c) => crate::text::push_i64(&mut m, *c as i64),
                None => m.append("signal"),
            }
            failed(m)
        },
        CommandOutcome::Failed(e) => failed(prefixed("command failed: ", e.as_str())),
    }
}

/// The verdict of a file check.
pub fn file_verdict(path: &str, exists: bool) -> (v: HealthVerdict)
    ensures
        verdict_is(
            v,
            if exists {
                None
            } else {
                Some("file not found: "@ + path@)
            },
        ),
{
    if exists {
        passed()
    } else {
        failed(prefixed("file not found: ", path))
    }
}

} // verus!
