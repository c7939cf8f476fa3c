use shihaisha::cli::{backend_call, backend_line, check_file, check_set, done_message, list_output, select_backend, status_line, BackendCall, Command};
use shihaisha::engine::health::{
    command_verdict, file_verdict, head_request, http_response_ok, http_target, http_verdict, probe_for,
    tcp_verdict, CommandOutcome, DefaultHealthChecker, HttpOutcome, Probe, TcpOutcome,
};
use shihaisha::engine::native::{
    elapsed_secs, list_statuses, native_status, on_exit, should_restart, spec_file_stem, spec_path,
    within_retries, NativeRecord, WatchStep,
};
use shihaisha::engine::host::{root_from_output, uid_from_output};
use shihaisha::engine::launchd::{dict_to_xml, spec_to_plist, standard_out_path};
use shihaisha::engine::registry::BackendRegistry;
use shihaisha::types::logging::LogTarget;
use shihaisha::engine::translator::{ConfigTranslator, LaunchdTranslator, SupervisordTranslator, SystemdTranslator};
use shihaisha::error::Error;
use shihaisha::types::health_check::HealthCheckSpec;
use shihaisha::types::resource_limits::{MemorySize, ResourceLimits};
use shihaisha::types::service_spec::{DependencySpec, RestartPolicy, RestartStrategy, ServiceSpec};
use shihaisha::types::service_status::{ServiceState, ServiceStatus};

// --- health ---

#[test]
fn default_health_checker_name() {
    let checker = DefaultHealthChecker::new();
    assert_eq!(checker.name(), "default");
}

#[test]
fn default_health_checker_default_trait() {
    let checker = DefaultHealthChecker::default();
    assert_eq!(checker.name(), "default");
}

#[test]
fn http_probe_targets_host_and_path() {
    let (host_port, path, host) = http_target("http://localhost:8080/health");
    assert_eq!(host_port, "localhost:8080");
    assert_eq!(path, "/health");
    assert_eq!(host, "localhost");
    let (hp, p, h) = http_target("https://example.org");
    assert_eq!(hp, "example.org");
    assert_eq!(p, "/");
    assert_eq!(h, "example.org");
    assert_eq!(head_request("/x", "h"), "HEAD /x HTTP/1.1\r\nHost: h\r\nConnection: close\r\n\r\n");
    let spec = HealthCheckSpec::Http {
        endpoint: "http://localhost:8080/health".to_owned(),
        interval_secs: 10,
        timeout_secs: 7,
        max_failures: 3,
    };
    match probe_for(&spec) {
        Probe::Http { host_port, request, timeout_secs } => {
            assert_eq!(host_port, "localhost:8080");
            assert!(request.starts_with("HEAD /health HTTP/1.1\r\nHost: localhost\r\n"));
            assert_eq!(timeout_secs, 7);
        }
        _ => panic!("expected an HTTP probe"),
    }
}

#[test]
fn http_status_codes() {
    assert!(http_response_ok("HTTP/1.1 200 OK\r\n"));
    assert!(http_response_ok("HTTP/1.1 302 Found\r\n"));
    assert!(!http_response_ok("HTTP/1.1 404 Not Found\r\n"));
    assert!(!http_response_ok("HTTP/1.1 500 Oops\r\n"));
    assert!(!http_response_ok("garbage"));
    assert!(!http_response_ok(""));
}

#[test]
fn verdict_messages() {
    let ok = http_verdict(&HttpOutcome::Reply("HTTP/1.1 204 No Content\r\n".to_owned()));
    assert!(ok.healthy && ok.message.is_none());
    let bad = http_verdict(&HttpOutcome::Reply("HTTP/1.1 503 Busy\r\n".to_owned()));
    assert!(!bad.healthy);
    assert_eq!(bad.message.as_deref(), Some("HTTP check returned non-2xx/3xx"));
    let t = tcp_verdict(&TcpOutcome::TimedOut);
    assert_eq!(t.message.as_deref(), Some("TCP connect timed out"));
    assert!(tcp_verdict(&TcpOutcome::Connected).healthy);
    let c = command_verdict(&CommandOutcome::Exited { success: false, code: Some(42) });
    assert!(!c.healthy);
    assert!(c.message.unwrap().contains("42"));
    let f = command_verdict(&CommandOutcome::Failed("no such file".to_owned()));
    assert!(f.message.unwrap().contains("command failed"));
    let missing = file_verdict("/nope", false);
    assert_eq!(missing.message.as_deref(), Some("file not found: /nope"));
    assert!(file_verdict("/tmp", true).healthy);
}

// --- registry ---

#[test]
fn empty_registry_has_no_backends() {
    let registry: BackendRegistry<u32> = BackendRegistry::empty();
    assert!(registry.available_backends().is_empty());
    assert!(registry.default_backend().is_none());
}

#[test]
fn empty_registry_default_name_is_empty() {
    let registry: BackendRegistry<u32> = BackendRegistry::empty();
    assert_eq!(registry.default_name(), "");
}

#[test]
fn empty_registry_get_returns_none() {
    let registry: BackendRegistry<u32> = BackendRegistry::empty();
    assert!(registry.get("native").is_none());
    assert!(registry.get("").is_none());
}

#[test]
fn with_backend_get_wrong_name_returns_none() {
    let registry = BackendRegistry::with_backend("mock".to_owned(), 7u32);
    assert!(registry.get("native").is_none());
    assert!(registry.get("systemd").is_none());
}

#[test]
fn with_backend_contains_the_backend() {
    let registry = BackendRegistry::with_backend("mock".to_owned(), 7u32);
    assert_eq!(registry.get("mock"), Some(&7));
    assert_eq!(registry.default_name(), "mock");
    assert_eq!(registry.available_backends().len(), 1);
    assert_eq!(registry.default_backend(), Some(&7));
}

#[test]
fn detect_orders_backends_and_picks_default() {
    let linux = BackendRegistry::detect(None, Some(1u32), Some(2u32), 3u32);
    assert_eq!(linux.available_backends(), vec!["systemd", "supervisord", "native"]);
    assert_eq!(linux.default_name(), "systemd");
    assert_eq!(linux.default_backend(), Some(&1));
    let both = BackendRegistry::detect(Some(0u32), Some(1u32), None, 3u32);
    assert_eq!(both.default_name(), "launchd");
    assert_eq!(both.default_backend(), Some(&0));
    let supervised = BackendRegistry::detect(None, None, Some(2u32), 3u32);
    assert_eq!(supervised.default_name(), "supervisord");
    assert_eq!(supervised.default_backend(), Some(&2));
    let bare = BackendRegistry::detect(None, None, None, 3u32);
    assert_eq!(bare.available_backends(), vec!["native"]);
    assert_eq!(bare.default_name(), "native");
    assert_eq!(bare.get("native"), Some(&3));
}

// --- translators ---

#[test]
fn extension_is_plist() {
    assert_eq!(LaunchdTranslator::new("/Users/t").extension(), "plist");
}

#[test]
fn name_is_launchd() {
    assert_eq!(LaunchdTranslator::new("/Users/t").name(), "launchd");
}

#[test]
fn extension_is_conf() {
    assert_eq!(SupervisordTranslator.extension(), "conf");
}

#[test]
fn name_is_supervisord() {
    assert_eq!(SupervisordTranslator.name(), "supervisord");
}

#[test]
fn extension_is_service() {
    assert_eq!(SystemdTranslator.extension(), "service");
}

#[test]
fn name_is_systemd() {
    assert_eq!(SystemdTranslator.name(), "systemd");
}

#[test]
fn translate_produces_xml() {
    let mut spec = ServiceSpec::new("com.test.myapp", "/usr/local/bin/myapp");
    spec.description = "Test".to_owned();
    let result = LaunchdTranslator::new("/Users/t").translate(&spec).expect("translate");
    assert!(result.contains("com.test.myapp"));
    assert!(result.contains("ProgramArguments"));
}

#[test]
fn translate_refuses_memory_beyond_i64() {
    let mut spec = ServiceSpec::new("com.test.myapp", "/usr/local/bin/myapp");
    spec.resources = Some(ResourceLimits {
        memory_max: Some(MemorySize::parse("9000000000G").unwrap()),
        ..ResourceLimits::default()
    });
    let err = LaunchdTranslator::new("/Users/t").translate(&spec).unwrap_err();
    assert_eq!(err, Error::Serialization("memory size out of range".to_owned()));
}

#[test]
fn translate_produces_program_section() {
    let spec = ServiceSpec::new("test-svc", "/usr/bin/test");
    let result = SupervisordTranslator.translate(&spec).expect("translate");
    assert!(result.contains("[program:test-svc]"));
    assert!(result.contains("command=/usr/bin/test"));
    assert!(result.contains("autostart=true"));
}

#[test]
fn parse_native_returns_error() {
    let result = SupervisordTranslator.parse_native("[program:test]\ncommand=/bin/true");
    assert!(result.is_err());
    assert!(SystemdTranslator.parse_native("[Unit]").is_err());
    assert!(LaunchdTranslator::new("/").parse_native("<plist/>").is_err());
}

#[test]
fn translate_produces_unit() {
    let spec = ServiceSpec::new("test-svc", "/usr/bin/test");
    let result = SystemdTranslator.translate(&spec).expect("translate");
    assert!(result.contains("[Unit]"));
    assert!(result.contains("ExecStart=/usr/bin/test"));
}

// --- native supervision ---

fn policy(strategy: RestartStrategy, max_retries: u32) -> RestartPolicy {
    RestartPolicy { strategy, delay_secs: 3, max_retries, reset_after_secs: 300 }
}

#[test]
fn restart_decisions() {
    assert!(should_restart(RestartStrategy::Always, 0));
    assert!(should_restart(RestartStrategy::OnFailure, 1));
    assert!(!should_restart(RestartStrategy::OnFailure, 0));
    assert!(should_restart(RestartStrategy::OnSuccess, 0));
    assert!(!should_restart(RestartStrategy::Never, 1));
    assert!(within_retries(0, 1000));
    assert!(within_retries(3, 2));
    assert!(!within_retries(3, 3));
}

#[test]
fn watcher_respawns_then_gives_up() {
    let mut rec = NativeRecord::installed();
    rec.started(Some(100), 1_000);
    let p = policy(RestartStrategy::OnFailure, 2);
    assert!(matches!(on_exit(&mut rec, 1, &p), WatchStep::Respawn { delay_secs: 3 }));
    assert_eq!(rec.state, ServiceState::Starting);
    assert_eq!(rec.restart_count, 1);
    assert_eq!(rec.pid, None);
    assert!(matches!(on_exit(&mut rec, 1, &p), WatchStep::Respawn { .. }));
    assert_eq!(rec.restart_count, 2);
    assert!(matches!(on_exit(&mut rec, 1, &p), WatchStep::Finished));
    assert_eq!(rec.state, ServiceState::Failed);
    assert_eq!(rec.exit_code, Some(1));
    assert_eq!(rec.restart_count, 2);
}

#[test]
fn clean_exit_without_restart_is_stopped() {
    let mut rec = NativeRecord::installed();
    rec.started(Some(5), 0);
    assert!(matches!(on_exit(&mut rec, 0, &policy(RestartStrategy::OnFailure, 0)), WatchStep::Finished));
    assert_eq!(rec.state, ServiceState::Stopped);
    assert!(!rec.is_running());
}

#[test]
fn native_status_and_listing() {
    assert_eq!(elapsed_secs(10, 70), 60);
    assert_eq!(elapsed_secs(70, 10), 0);
    let mut rec = NativeRecord::installed();
    rec.started(Some(42), 100);
    let s = native_status("web", Some(&rec), true, 160).unwrap();
    assert_eq!(s.state, ServiceState::Running);
    assert_eq!(s.pid, Some(42));
    assert_eq!(s.uptime_secs, Some(60));
    assert_eq!(s.backend, "native");
    let idle = native_status("db", None, true, 0).unwrap();
    assert_eq!(idle.state, ServiceState::Inactive);
    assert!(matches!(native_status("nope", None, false, 0), Err(Error::ServiceNotFound(n)) if n == "nope"));
    let all = list_statuses(&vec![("web".to_owned(), rec)], &vec!["web".to_owned(), "db".to_owned()], 160);
    assert_eq!(all.len(), 2);
    assert_eq!(all[0].name, "web");
    assert_eq!(all[1].name, "db");
    assert_eq!(all[1].state, ServiceState::Inactive);
}

#[test]
fn spec_file_names() {
    assert_eq!(spec_path("/srv/specs", "web"), "/srv/specs/web.yaml");
    assert_eq!(spec_file_stem("web.yaml"), Some("web".to_owned()));
    assert_eq!(spec_file_stem("web.yml"), None);
    assert_eq!(spec_file_stem("notes.txt"), None);
}

// --- command line decisions ---

#[test]
fn command_messages() {
    assert_eq!(
        done_message(&Command::Install { spec: "a.yaml".to_owned() }, "web"),
        Some("Installed service 'web'".to_owned())
    );
    assert_eq!(done_message(&Command::Stop { name: "db".to_owned() }, ""), Some("Stopped service 'db'".to_owned()));
    assert_eq!(done_message(&Command::List, ""), None);
    assert_eq!(backend_line("native", "native"), "  native (default)");
    assert_eq!(backend_line("systemd", "native"), "  systemd");
}

#[test]
fn listing_lines() {
    assert_eq!(list_output(&vec![]), vec!["No managed services"]);
    let mut s = ServiceStatus::new("web", ServiceState::Running, "native").with_pid(42);
    s.uptime_secs = Some(5);
    let out = list_output(&vec![s.clone()]);
    assert_eq!(out.len(), 2);
    assert!(out[0].starts_with("NAME"));
    assert_eq!(out[1], format!("{:<30} {:<12} {:<8} {}", "web", "running", "42", "5s"));
    assert_eq!(status_line(&s), format!("{:<30} {:?}", "web", ServiceState::Running));
}

#[test]
fn backend_selection() {
    let reg = BackendRegistry::with_backend("native".to_owned(), 1u32);
    assert_eq!(select_backend(&reg, None), Ok(&1));
    assert_eq!(select_backend(&reg, Some("native")), Ok(&1));
    assert_eq!(select_backend(&reg, Some("systemd")), Err("backend 'systemd' not available".to_owned()));
    let empty: BackendRegistry<u32> = BackendRegistry::empty();
    assert_eq!(select_backend(&empty, None), Err("no backends available".to_owned()));
}

#[test]
fn checking_specs() {
    let ok = ServiceSpec::new("web", "/bin/web");
    assert_eq!(check_file("web.yaml", &ok), Ok("Valid: web".to_owned()));
    let bad = ServiceSpec::new("", "/bin/web");
    assert_eq!(
        check_file("bad.yaml", &bad),
        Err("bad.yaml: config error: service name must not be empty".to_owned())
    );
    let mut app = ServiceSpec::new("app", "/bin/app");
    app.depends_on = DependencySpec { after: vec!["db".to_owned()], ..DependencySpec::default() };
    let db = ServiceSpec::new("db", "/bin/db");
    assert_eq!(check_set(&[db.clone(), app.clone()]), Ok("Validated 2 specs, no errors".to_owned()));
    assert_eq!(
        check_set(&[app.clone()]),
        Err("dependency error: dependency error: service 'app' references unknown dependency 'db'".to_owned())
    );
    let mut db2 = db.clone();
    db2.depends_on = DependencySpec { after: vec!["app".to_owned()], ..DependencySpec::default() };
    assert_eq!(
        check_set(&[db2, app]),
        Err("dependency cycle: dependency error: circular dependency involving: app, db".to_owned())
    );
}

// --- host identity and launchd log paths ---

#[test]
fn user_identity_from_id_output() {
    assert_eq!(uid_from_output("1000\n"), 1000);
    assert_eq!(uid_from_output("  0 \n"), 0);
    assert_eq!(uid_from_output("garbage"), 501);
    assert_eq!(uid_from_output(""), 501);
    assert!(root_from_output("0\n"));
    assert!(!root_from_output("1000\n"));
    assert!(!root_from_output(""));
}

#[test]
fn standard_out_path_from_written_plist() {
    let mut spec = ServiceSpec::new("com.x", "/bin/x");
    spec.logging.stdout = LogTarget::File("/var/log/x.log".to_owned());
    let xml = dict_to_xml(&spec_to_plist(&spec, "/Users/t")).unwrap();
    assert_eq!(standard_out_path(xml.as_bytes()), Some("/var/log/x.log".to_owned()));
    let plain = dict_to_xml(&spec_to_plist(&ServiceSpec::new("com.y", "/bin/y"), "/Users/t")).unwrap();
    assert_eq!(standard_out_path(plain.as_bytes()), None);
    assert_eq!(standard_out_path(b"not a plist"), None);
}

#[test]
fn backend_call_per_command() {
    let name = || "web".to_owned();
    assert!(matches!(
        backend_call(&Command::Install { spec: "web.yaml".to_owned() }),
        Some(BackendCall::Install { spec }) if spec == "web.yaml"
    ));
    assert!(matches!(backend_call(&Command::Uninstall { name: name() }), Some(BackendCall::Uninstall { name }) if name == "web"));
    assert!(matches!(backend_call(&Command::Start { name: name() }), Some(BackendCall::Start { name }) if name == "web"));
    assert!(matches!(backend_call(&Command::Stop { name: name() }), Some(BackendCall::Stop { name }) if name == "web"));
    assert!(matches!(backend_call(&Command::Restart { name: name() }), Some(BackendCall::Restart { name }) if name == "web"));
    assert!(matches!(backend_call(&Command::Reload { name: name() }), Some(BackendCall::Reload { name }) if name == "web"));
    assert!(matches!(backend_call(&Command::Status { name: Some(name()) }), Some(BackendCall::Status { name }) if name == "web"));
    assert!(matches!(backend_call(&Command::Status { name: None }), Some(BackendCall::StatusAll)));
    assert!(matches!(
        backend_call(&Command::Logs { name: name(), lines: 50 }),
        Some(BackendCall::Logs { name, lines: 50 }) if name == "web"
    ));
    assert!(matches!(backend_call(&Command::Enable { name: name() }), Some(BackendCall::Enable { name }) if name == "web"));
    assert!(matches!(backend_call(&Command::Disable { name: name() }), Some(BackendCall::Disable { name }) if name == "web"));
    assert!(matches!(backend_call(&Command::List), Some(BackendCall::List)));
    assert!(matches!(backend_call(&Command::DaemonReload), Some(BackendCall::DaemonReload)));
    assert!(backend_call(&Command::Check { path: "specs".to_owned() }).is_none());
    assert!(backend_call(&Command::Backends).is_none());
    assert!(backend_call(&Command::Daemon).is_none());
}
