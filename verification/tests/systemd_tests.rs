use shihaisha::engine::systemd::{
    parse_list_units, parse_systemctl_show, spec_to_unit, status_from_show, unit_name, SystemdBackend,
};
use shihaisha::strmap::StrMap;
use shihaisha::types::logging::LogTarget;
use shihaisha::types::resource_limits::{MemorySize, NiceValue, ResourceLimits, Weight};
use shihaisha::types::service_spec::{RestartStrategy, ServiceSpec, ServiceType};
use shihaisha::types::service_status::ServiceState;

fn test_spec() -> ServiceSpec {
    let mut spec = ServiceSpec::new("test-svc", "/usr/bin/test-app");
    spec.description = "Test service".to_owned();
    spec
}

#[test]
fn unit_generation_minimal() {
    let unit = spec_to_unit(&test_spec());
    assert!(unit.contains("[Unit]"));
    assert!(unit.contains("Description=Test service"));
    assert!(unit.contains("[Service]"));
    assert!(unit.contains("Type=simple"));
    assert!(unit.contains("ExecStart=/usr/bin/test-app"));
    assert!(unit.contains("Restart=on-failure"));
    assert!(unit.contains("RestartSec=5"));
    assert!(unit.contains("TimeoutStartSec=90"));
    assert!(unit.contains("TimeoutStopSec=90"));
    assert!(unit.contains("[Install]"));
    assert!(unit.contains("WantedBy=default.target"));
}

#[test]
fn unit_generation_with_deps_and_env() {
    let mut spec = test_spec();
    spec.depends_on.after = vec!["database".to_owned()];
    spec.depends_on.requires = vec!["database".to_owned()];
    spec.depends_on.conflicts = vec!["legacy-app".to_owned()];
    spec.environment.insert("RUST_LOG".to_owned(), "info".to_owned());
    spec.environment.insert("PORT".to_owned(), "8080".to_owned());
    spec.user = Some("www-data".to_owned());
    spec.group = Some("www-data".to_owned());
    spec.working_directory = Some("/var/www".to_owned());
    let unit = spec_to_unit(&spec);
    assert!(unit.contains("After=database.service"));
    assert!(unit.contains("Requires=database.service"));
    assert!(unit.contains("Conflicts=legacy-app.service"));
    assert!(unit.contains("User=www-data"));
    assert!(unit.contains("Group=www-data"));
    assert!(unit.contains("WorkingDirectory=/var/www"));
    assert!(unit.contains("Environment=\"RUST_LOG=info\""));
    assert!(unit.contains("Environment=\"PORT=8080\""));
}

#[test]
fn restart_policy_mapping() {
    let strategies = [
        (RestartStrategy::Always, "Restart=always"),
        (RestartStrategy::OnFailure, "Restart=on-failure"),
        (RestartStrategy::OnSuccess, "Restart=on-success"),
        (RestartStrategy::Never, "Restart=no"),
    ];
    for (strategy, expected) in strategies {
        let mut spec = test_spec();
        spec.restart.strategy = strategy;
        let unit = spec_to_unit(&spec);
        assert!(unit.contains(expected), "expected {} for {:?}, got:\n{}", expected, strategy, unit);
    }
}

#[test]
fn service_type_mapping() {
    let types = [
        (ServiceType::Simple, "Type=simple"),
        (ServiceType::Oneshot, "Type=oneshot"),
        (ServiceType::Notify, "Type=notify"),
        (ServiceType::Forking, "Type=forking"),
    ];
    for (svc_type, expected) in types {
        let mut spec = test_spec();
        spec.service_type = svc_type;
        let unit = spec_to_unit(&spec);
        assert!(unit.contains(expected), "expected {} for {:?}, got:\n{}", expected, svc_type, unit);
    }
}

#[test]
fn resource_limits_in_unit() {
    let mut spec = test_spec();
    spec.resources = Some(ResourceLimits {
        memory_max: Some(MemorySize::parse("512M").unwrap()),
        memory_high: Some(MemorySize::parse("384M").unwrap()),
        cpu_weight: Some(Weight::new(500).unwrap()),
        cpu_quota: Some("50%".to_owned()),
        tasks_max: Some(256),
        io_weight: Some(Weight::new(100).unwrap()),
        nice: Some(NiceValue::new(5).unwrap()),
    });
    let unit = spec_to_unit(&spec);
    assert!(unit.contains("MemoryMax=512M"));
    assert!(unit.contains("MemoryHigh=384M"));
    assert!(unit.contains("CPUWeight=500"));
    assert!(unit.contains("CPUQuota=50%"));
    assert!(unit.contains("TasksMax=256"));
    assert!(unit.contains("IOWeight=100"));
    assert!(unit.contains("Nice=5"));
}

#[test]
fn notify_and_watchdog() {
    let mut spec = test_spec();
    spec.notify = true;
    spec.watchdog_sec = 30;
    let unit = spec_to_unit(&spec);
    assert!(unit.contains("NotifyAccess=main"));
    assert!(unit.contains("WatchdogSec=30"));
}

#[test]
fn backend_overrides_applied() {
    let mut spec = test_spec();
    let mut svc_overrides = StrMap::new();
    svc_overrides.insert("LimitNOFILE".to_owned(), "65536".to_owned());
    svc_overrides.insert("ProtectHome".to_owned(), "yes".to_owned());
    spec.overrides.systemd.insert("Service".to_owned(), svc_overrides);
    let unit = spec_to_unit(&spec);
    assert!(unit.contains("LimitNOFILE=65536"));
    assert!(unit.contains("ProtectHome=yes"));
}

#[test]
fn exec_start_with_args() {
    let mut spec = test_spec();
    spec.args = vec!["--port".to_owned(), "8080".to_owned(), "--verbose".to_owned()];
    let unit = spec_to_unit(&spec);
    assert!(unit.contains("ExecStart=/usr/bin/test-app --port 8080 --verbose"));
}

#[test]
fn parse_systemctl_show_output() {
    let output = "\
ActiveState=active
SubState=running
MainPID=12345
ExecMainStatus=0
NRestarts=2
MemoryCurrent=104857600
";
    let props = parse_systemctl_show(output);
    assert_eq!(props.get("ActiveState").unwrap(), "active");
    assert_eq!(props.get("MainPID").unwrap(), "12345");
    assert_eq!(props.get("NRestarts").unwrap(), "2");
    assert_eq!(props.get("MemoryCurrent").unwrap(), "104857600");
}

#[test]
fn logging_file_targets_in_unit() {
    let mut spec = test_spec();
    spec.logging.stdout = LogTarget::File("/var/log/app/stdout.log".to_owned());
    spec.logging.stderr = LogTarget::Null;
    let unit = spec_to_unit(&spec);
    assert!(unit.contains("StandardOutput=file:/var/log/app/stdout.log"));
    assert!(unit.contains("StandardError=null"));
}

#[test]
fn minimal_unit_is_exact() {
    let unit = spec_to_unit(&test_spec());
    let expected = "[Unit]\nDescription=Test service\n\n[Service]\nType=simple\nExecStart=/usr/bin/test-app\nRestart=on-failure\nRestartSec=5\nTimeoutStartSec=90\nTimeoutStopSec=90\n\n[Install]\nWantedBy=default.target\n";
    assert_eq!(unit, expected);
}

#[test]
fn status_from_show_reads_state_pid_and_restarts() {
    let output = "ActiveState=active\nSubState=running\nMainPID=12345\nExecMainStatus=0\nNRestarts=2\nMemoryCurrent=104857600\n";
    let s = status_from_show("web", output);
    assert_eq!(s.name, "web");
    assert_eq!(s.state, ServiceState::Running);
    assert_eq!(s.pid, Some(12345));
    assert_eq!(s.restart_count, 2);
    assert_eq!(s.memory_bytes, Some(104857600));
    assert_eq!(s.backend, "systemd");

    let failed = status_from_show("web", "ActiveState=failed\nMainPID=0\nExecMainStatus=137\n");
    assert_eq!(failed.state, ServiceState::Failed);
    assert_eq!(failed.pid, None);
}

#[test]
fn list_units_reads_service_names() {
    // The state is read from the third column.
    let out = "web.service loaded active running Web server\ndb.service loaded failed failed Database\nshort line\n";
    let list = parse_list_units(out);
    assert_eq!(list.len(), 2);
    assert_eq!(list[0].name, "web");
    assert_eq!(list[0].state, ServiceState::Unknown);
    assert_eq!(list[1].name, "db");
    assert_eq!(list[1].state, ServiceState::Failed);
}

#[test]
fn backend_paths_and_arguments() {
    let user = SystemdBackend::new(false, "/home/u");
    assert_eq!(user.unit_dir, "/home/u/.config/systemd/user");
    assert_eq!(user.unit_path("web"), "/home/u/.config/systemd/user/web.service");
    assert_eq!(user.systemctl_base_args(), vec!["--user"]);
    assert_eq!(user.journal_args("web", 50), vec!["--user", "-u", "web.service", "-n", "50", "--no-pager"]);
    let root = SystemdBackend::new(true, "/root");
    assert_eq!(root.unit_dir, "/etc/systemd/system");
    assert!(root.systemctl_base_args().is_empty());
    assert_eq!(unit_name("db"), "db.service");
}
