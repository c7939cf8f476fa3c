use shihaisha::engine::supervisord::{
    parse_status_list, parse_supervisord_pid, parse_supervisord_state, spec_to_conf, status_from_output,
    ConfigEmitter, SupervisordBackend,
};
use shihaisha::types::logging::LogTarget;
use shihaisha::types::resource_limits::{MemorySize, NiceValue, ResourceLimits};
use shihaisha::types::service_spec::{RestartStrategy, ServiceSpec, ServiceType};
use shihaisha::types::service_status::ServiceState;

fn test_spec() -> ServiceSpec {
    let mut spec = ServiceSpec::new("test-svc", "/usr/bin/test-app");
    spec.description = "Test service".to_owned();
    spec
}

fn backend() -> SupervisordBackend {
    SupervisordBackend::new("/home/tester")
}

#[test]
fn conf_generation_basic() {
    let conf = spec_to_conf(&test_spec());
    assert!(conf.contains("[program:test-svc]"));
    assert!(conf.contains("command=/usr/bin/test-app"));
    assert!(conf.contains("autostart=true"));
    assert!(conf.contains("autorestart=unexpected"));
    assert!(conf.contains("startsecs=5"));
    assert!(conf.contains("startretries=3"));
    assert!(conf.contains("stopwaitsecs=90"));
}

#[test]
fn conf_restart_always() {
    let mut spec = test_spec();
    spec.restart.strategy = RestartStrategy::Always;
    assert!(spec_to_conf(&spec).contains("autorestart=true"));
}

#[test]
fn conf_restart_on_failure() {
    let mut spec = test_spec();
    spec.restart.strategy = RestartStrategy::OnFailure;
    assert!(spec_to_conf(&spec).contains("autorestart=unexpected"));
}

#[test]
fn conf_restart_never() {
    let mut spec = test_spec();
    spec.restart.strategy = RestartStrategy::Never;
    assert!(spec_to_conf(&spec).contains("autorestart=false"));
}

#[test]
fn conf_restart_on_success() {
    let mut spec = test_spec();
    spec.restart.strategy = RestartStrategy::OnSuccess;
    assert!(spec_to_conf(&spec).contains("autorestart=false"));
}

#[test]
fn conf_environment() {
    let mut spec = test_spec();
    spec.environment.insert("RUST_LOG".to_owned(), "info".to_owned());
    let conf = spec_to_conf(&spec);
    assert!(conf.contains("environment="), "should contain environment directive");
    assert!(conf.contains("RUST_LOG=\"info\""), "should contain quoted env var");
}

#[test]
fn conf_with_working_directory() {
    let mut spec = test_spec();
    spec.working_directory = Some("/var/www".to_owned());
    assert!(spec_to_conf(&spec).contains("directory=/var/www"));
}

#[test]
fn conf_with_user() {
    let mut spec = test_spec();
    spec.user = Some("www-data".to_owned());
    assert!(spec_to_conf(&spec).contains("user=www-data"));
}

#[test]
fn conf_oneshot_no_autostart() {
    let mut spec = test_spec();
    spec.service_type = ServiceType::Oneshot;
    assert!(spec_to_conf(&spec).contains("autostart=false"));
}

#[test]
fn conf_with_args() {
    let mut spec = test_spec();
    spec.args = vec!["--port".to_owned(), "8080".to_owned(), "--verbose".to_owned()];
    assert!(spec_to_conf(&spec).contains("command=/usr/bin/test-app --port 8080 --verbose"));
}

#[test]
fn conf_priority_from_nice() {
    let mut spec = test_spec();
    spec.resources = Some(ResourceLimits {
        memory_max: None,
        memory_high: None,
        cpu_weight: None,
        cpu_quota: None,
        tasks_max: None,
        io_weight: None,
        nice: Some(NiceValue::new(5).unwrap()),
    });
    assert!(spec_to_conf(&spec).contains("priority=1004"), "nice=5 should map to priority=1004 (999+5)");
}

#[test]
fn conf_logging_file_stdout() {
    let mut spec = test_spec();
    spec.logging.stdout = LogTarget::File("/var/log/app/stdout.log".to_owned());
    assert!(spec_to_conf(&spec).contains("stdout_logfile=/var/log/app/stdout.log"));
}

#[test]
fn conf_logging_null_stderr() {
    let mut spec = test_spec();
    spec.logging.stderr = LogTarget::Null;
    assert!(spec_to_conf(&spec).contains("stderr_logfile=/dev/null"));
}

#[test]
fn conf_max_retries_custom() {
    let mut spec = test_spec();
    spec.restart.max_retries = 10;
    assert!(spec_to_conf(&spec).contains("startretries=10"));
}

#[test]
fn parse_state_running() {
    assert_eq!(parse_supervisord_state("test-svc    RUNNING    pid 12345, uptime 0:05:00"), ServiceState::Running);
}

#[test]
fn parse_state_stopped() {
    assert_eq!(parse_supervisord_state("test-svc    STOPPED    Not started"), ServiceState::Stopped);
}

#[test]
fn parse_state_fatal() {
    assert_eq!(parse_supervisord_state("test-svc    FATAL      Exited too quickly"), ServiceState::Failed);
}

#[test]
fn parse_state_backoff() {
    assert_eq!(parse_supervisord_state("test-svc    BACKOFF    Exited too quickly"), ServiceState::Failed);
}

#[test]
fn parse_state_starting() {
    assert_eq!(parse_supervisord_state("test-svc    STARTING"), ServiceState::Starting);
}

#[test]
fn parse_state_unknown() {
    assert_eq!(parse_supervisord_state("test-svc    EXITED"), ServiceState::Unknown);
}

#[test]
fn parse_pid_present() {
    assert_eq!(parse_supervisord_pid("test-svc    RUNNING    pid 12345, uptime 0:05:00"), Some(12345));
}

#[test]
fn parse_pid_absent() {
    assert_eq!(parse_supervisord_pid("test-svc    STOPPED    Not started"), None);
}

#[test]
fn backend_name_is_supervisord() {
    assert_eq!(backend().name(), "supervisord");
}

#[test]
fn conf_logging_journal_uses_auto() {
    let conf = spec_to_conf(&test_spec());
    assert!(conf.contains("stdout_logfile=AUTO"), "Journal logging should map to AUTO: {}", conf);
}

#[test]
fn conf_logging_inherit_uses_redirect() {
    let mut spec = test_spec();
    spec.logging.stdout = LogTarget::Inherit;
    spec.logging.stderr = LogTarget::Inherit;
    assert!(spec_to_conf(&spec).contains("redirect_stderr=true"));
}

#[test]
fn conf_logging_file_stderr() {
    let mut spec = test_spec();
    spec.logging.stderr = LogTarget::File("/var/log/err.log".to_owned());
    assert!(spec_to_conf(&spec).contains("stderr_logfile=/var/log/err.log"));
}

#[test]
fn conf_logging_null_stdout() {
    let mut spec = test_spec();
    spec.logging.stdout = LogTarget::Null;
    assert!(spec_to_conf(&spec).contains("stdout_logfile=/dev/null"));
}

#[test]
fn parse_state_stopping_maps_to_unknown() {
    assert_eq!(parse_supervisord_state("test-svc    STOPPING"), ServiceState::Unknown);
}

#[test]
fn parse_state_empty_string() {
    assert_eq!(parse_supervisord_state(""), ServiceState::Unknown);
}

#[test]
fn conf_stop_wait_from_timeout() {
    let mut spec = test_spec();
    spec.timeout_stop_sec = 120;
    assert!(spec_to_conf(&spec).contains("stopwaitsecs=120"));
}

#[test]
fn conf_delay_secs_maps_to_startsecs() {
    let mut spec = test_spec();
    spec.restart.delay_secs = 15;
    assert!(spec_to_conf(&spec).contains("startsecs=15"));
}

#[test]
fn config_emitter_extension_is_conf() {
    let b = backend();
    assert_eq!(ConfigEmitter::extension(&b), "conf");
    assert_eq!(ConfigEmitter::name(&b), "supervisord");
}

#[test]
fn conf_no_resources_omits_priority() {
    let mut spec = test_spec();
    spec.resources = None;
    assert!(!spec_to_conf(&spec).contains("priority="));
}

#[test]
fn conf_resources_without_nice_omits_priority() {
    let mut spec = test_spec();
    spec.resources = Some(ResourceLimits {
        memory_max: Some(MemorySize::parse("1G").unwrap()),
        ..ResourceLimits::default()
    });
    assert!(!spec_to_conf(&spec).contains("priority="));
}

#[test]
fn emit_is_the_program_section() {
    let spec = test_spec();
    assert_eq!(ConfigEmitter::emit(&backend(), &spec).unwrap(), spec_to_conf(&spec));
}

#[test]
fn backend_paths() {
    let b = backend();
    assert_eq!(b.config_dir, "/home/tester/.config/shihaisha/supervisord.d");
    assert_eq!(b.conf_path("web"), "/home/tester/.config/shihaisha/supervisord.d/web.conf");
}

#[test]
fn nice_extremes_map_to_priority() {
    let mut spec = test_spec();
    spec.resources = Some(ResourceLimits { nice: Some(NiceValue::new(-20).unwrap()), ..ResourceLimits::default() });
    assert!(spec_to_conf(&spec).contains("priority=979\n"));
}

#[test]
fn status_lines_are_read() {
    let s = status_from_output("web", "web    RUNNING    pid 4242, uptime 1:00:00");
    assert_eq!(s.state, ServiceState::Running);
    assert_eq!(s.pid, Some(4242));
    assert_eq!(s.backend, "supervisord");
    let all = parse_status_list("a    RUNNING    pid 1, uptime 0:00:01\nb    STOPPED    Not started\n");
    assert_eq!(all.len(), 2);
    assert_eq!(all[0].name, "a");
    assert_eq!(all[1].name, "b");
    assert_eq!(all[1].state, ServiceState::Stopped);
}
