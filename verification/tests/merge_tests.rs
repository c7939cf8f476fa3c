use shihaisha::json::{JsonNumber, JsonValue};
use shihaisha::merge::Merge;
use shihaisha::strmap::StrMap;
use shihaisha::types::health_check::HealthCheckSpec;
use shihaisha::types::logging::{LogTarget, LoggingSpec};
use shihaisha::types::resource_limits::{MemorySize, NiceValue, ResourceLimits, Weight};
use shihaisha::types::service_spec::{
    DependencyCondition, DependencySpec, RestartPolicy, RestartStrategy, ServiceSpec, ServiceType,
};
use shihaisha::types::socket_spec::{SocketSpec, SocketType};

fn base_spec() -> ServiceSpec {
    let mut spec = ServiceSpec::new("base-svc", "/usr/bin/base");
    spec.description = "Base service".to_owned();
    spec.args = vec!["--verbose".to_owned()];
    spec.working_directory = Some("/var/base".to_owned());
    spec.user = Some("baseuser".to_owned());
    spec.environment.insert("RUST_LOG".to_owned(), "info".to_owned());
    spec.environment.insert("PORT".to_owned(), "8080".to_owned());
    spec.restart = RestartPolicy {
        strategy: RestartStrategy::OnFailure,
        delay_secs: 5,
        max_retries: 3,
        reset_after_secs: 300,
    };
    spec.depends_on = DependencySpec {
        after: vec!["database".to_owned()],
        before: vec![],
        requires: vec!["database".to_owned()],
        wants: vec![],
        conflicts: vec![],
        ..DependencySpec::default()
    };
    spec.resources = Some(ResourceLimits {
        memory_max: Some(MemorySize::parse("512M").unwrap()),
        memory_high: None,
        cpu_weight: None,
        cpu_quota: None,
        tasks_max: Some(256),
        io_weight: None,
        nice: None,
    });
    spec
}

fn overlay_spec() -> ServiceSpec {
    let mut spec = ServiceSpec::new("overlay-svc", "/usr/bin/overlay");
    spec.description = "Overlay service".to_owned();
    spec.args = vec!["--debug".to_owned()];
    spec.service_type = ServiceType::Notify;
    spec.group = Some("overlaygroup".to_owned());
    spec.environment.insert("RUST_LOG".to_owned(), "debug".to_owned());
    spec.environment.insert("NEW_VAR".to_owned(), "hello".to_owned());
    spec.restart = RestartPolicy {
        strategy: RestartStrategy::Always,
        delay_secs: 10,
        max_retries: 5,
        reset_after_secs: 600,
    };
    spec.depends_on = DependencySpec {
        after: vec!["cache".to_owned()],
        before: vec![],
        requires: vec![],
        wants: vec!["metrics".to_owned()],
        conflicts: vec![],
        ..DependencySpec::default()
    };
    spec.resources = Some(ResourceLimits {
        memory_max: Some(MemorySize::parse("1G").unwrap()),
        memory_high: None,
        cpu_weight: Some(Weight::new(500).unwrap()),
        cpu_quota: None,
        tasks_max: None,
        io_weight: None,
        nice: Some(NiceValue::new(-5).unwrap()),
    });
    spec.notify = true;
    spec.watchdog_sec = 30;
    spec.timeout_start_sec = 120;
    spec.timeout_stop_sec = 60;
    spec
}

fn conditions(pairs: &[(&str, DependencyCondition)]) -> StrMap<DependencyCondition> {
    let mut m = StrMap::new();
    for (k, v) in pairs {
        m.insert(k.to_string(), *v);
    }
    m
}

fn section(pairs: &[(&str, &str)]) -> StrMap<String> {
    let mut m = StrMap::new();
    for (k, v) in pairs {
        m.insert(k.to_string(), v.to_string());
    }
    m
}

#[test]
fn scalar_override() {
    let merged = ServiceSpec::merge(&base_spec(), &overlay_spec());
    assert_eq!(merged.description, "Overlay service");
    assert_eq!(merged.command, "/usr/bin/overlay");
    assert_eq!(merged.service_type, ServiceType::Notify);
    assert!(merged.notify);
    assert_eq!(merged.watchdog_sec, 30);
    assert_eq!(merged.timeout_start_sec, 120);
    assert_eq!(merged.timeout_stop_sec, 60);
}

#[test]
fn option_fallthrough() {
    let base = base_spec();
    let mut overlay = overlay_spec();
    overlay.working_directory = None;
    overlay.user = None;
    let merged = ServiceSpec::merge(&base, &overlay);
    assert_eq!(merged.working_directory, Some("/var/base".to_owned()));
    assert_eq!(merged.user, Some("baseuser".to_owned()));
}

#[test]
fn option_override() {
    let base = base_spec();
    let mut overlay = overlay_spec();
    overlay.working_directory = Some("/var/overlay".to_owned());
    let merged = ServiceSpec::merge(&base, &overlay);
    assert_eq!(merged.working_directory, Some("/var/overlay".to_owned()));
}

#[test]
fn vec_concatenate() {
    let merged = ServiceSpec::merge(&base_spec(), &overlay_spec());
    assert!(merged.depends_on.after.contains(&"database".to_owned()));
    assert!(merged.depends_on.after.contains(&"cache".to_owned()));
    assert_eq!(merged.depends_on.after.len(), 2);
    assert_eq!(merged.depends_on.requires, vec!["database".to_owned()]);
    assert_eq!(merged.depends_on.wants, vec!["metrics".to_owned()]);
}

#[test]
fn vec_deduplicate() {
    let mut base = base_spec();
    base.depends_on.after = vec!["database".to_owned(), "cache".to_owned()];
    let mut overlay = overlay_spec();
    overlay.depends_on.after = vec!["cache".to_owned(), "redis".to_owned()];
    let merged = ServiceSpec::merge(&base, &overlay);
    assert_eq!(merged.depends_on.after.len(), 3);
    assert!(merged.depends_on.after.contains(&"database".to_owned()));
    assert!(merged.depends_on.after.contains(&"cache".to_owned()));
    assert!(merged.depends_on.after.contains(&"redis".to_owned()));
}

#[test]
fn map_merge() {
    let merged = ServiceSpec::merge(&base_spec(), &overlay_spec());
    assert_eq!(merged.environment.get("RUST_LOG").unwrap(), "debug");
    assert_eq!(merged.environment.get("PORT").unwrap(), "8080");
    assert_eq!(merged.environment.get("NEW_VAR").unwrap(), "hello");
    assert_eq!(merged.environment.len(), 3);
}

#[test]
fn full_spec_merge() {
    let merged = ServiceSpec::merge(&base_spec(), &overlay_spec());
    assert_eq!(merged.name, "overlay-svc");
    assert_eq!(merged.restart.strategy, RestartStrategy::Always);
    assert_eq!(merged.restart.delay_secs, 10);
    let res = merged.resources.as_ref().expect("resources should exist");
    assert_eq!(res.memory_max.as_ref().map(|m| m.to_string()).as_deref(), Some("1G"));
    assert_eq!(res.tasks_max, Some(256));
    assert_eq!(res.cpu_weight.map(|w| w.value()), Some(500));
    assert_eq!(res.nice.map(|n| n.value()), Some(-5));
    assert!(merged.args.contains(&"--verbose".to_owned()));
    assert!(merged.args.contains(&"--debug".to_owned()));
    assert_eq!(merged.group, Some("overlaygroup".to_owned()));
}

#[test]
fn nested_merge() {
    let mut base = base_spec();
    let mut base_systemd = StrMap::new();
    base_systemd.insert("Service".to_owned(), section(&[("LimitNOFILE", "65536"), ("ProtectHome", "yes")]));
    base.overrides.systemd = base_systemd;

    let mut overlay = overlay_spec();
    let mut overlay_systemd = StrMap::new();
    overlay_systemd.insert("Service".to_owned(), section(&[("LimitNOFILE", "131072"), ("PrivateTmp", "yes")]));
    overlay_systemd.insert("Unit".to_owned(), section(&[("Documentation", "man:app(1)")]));
    overlay.overrides.systemd = overlay_systemd;

    let merged = ServiceSpec::merge(&base, &overlay);
    let service = merged.overrides.systemd.get("Service").expect("Service section");
    assert_eq!(service.get("LimitNOFILE").unwrap(), "131072");
    assert_eq!(service.get("ProtectHome").unwrap(), "yes");
    assert_eq!(service.get("PrivateTmp").unwrap(), "yes");
    let unit = merged.overrides.systemd.get("Unit").expect("Unit section");
    assert_eq!(unit.get("Documentation").unwrap(), "man:app(1)");
}

#[test]
fn empty_description_falls_through() {
    let base = base_spec();
    let mut overlay = overlay_spec();
    overlay.description = String::new();
    let merged = ServiceSpec::merge(&base, &overlay);
    assert_eq!(merged.description, "Base service");
}

#[test]
fn resource_limits_base_only() {
    let base = base_spec();
    let mut overlay = overlay_spec();
    overlay.resources = None;
    let merged = ServiceSpec::merge(&base, &overlay);
    let res = merged.resources.as_ref().expect("resources from base");
    assert_eq!(res.memory_max.as_ref().map(|m| m.to_string()).as_deref(), Some("512M"));
    assert_eq!(res.tasks_max, Some(256));
}

#[test]
fn resource_limits_overlay_only() {
    let mut base = base_spec();
    base.resources = None;
    let merged = ServiceSpec::merge(&base, &overlay_spec());
    let res = merged.resources.as_ref().expect("resources from overlay");
    assert_eq!(res.memory_max.as_ref().map(|m| m.to_string()).as_deref(), Some("1G"));
    assert_eq!(res.cpu_weight.map(|w| w.value()), Some(500));
}

#[test]
fn probe_fields_merge() {
    let mut base = base_spec();
    base.liveness = Some(HealthCheckSpec::Http {
        endpoint: "http://localhost:8080/live".to_owned(),
        interval_secs: 10,
        timeout_secs: 5,
        max_failures: 3,
    });
    base.readiness = None;
    base.startup = None;
    let mut overlay = overlay_spec();
    overlay.liveness = None;
    overlay.readiness = Some(HealthCheckSpec::Tcp {
        address: "127.0.0.1:5432".to_owned(),
        interval_secs: 15,
        max_failures: 5,
    });
    overlay.startup = Some(HealthCheckSpec::Command {
        command: "/usr/bin/check-init".to_owned(),
        args: vec![],
        interval_secs: 5,
        max_failures: 1,
    });
    let merged = ServiceSpec::merge(&base, &overlay);
    assert!(merged.liveness.is_some());
    assert!(merged.readiness.is_some());
    assert!(merged.startup.is_some());
}

#[test]
fn critical_overlay_wins() {
    let mut base = base_spec();
    base.critical = false;
    let mut overlay = overlay_spec();
    overlay.critical = true;
    let merged = ServiceSpec::merge(&base, &overlay);
    assert!(merged.critical);
}

#[test]
fn conditions_map_merges() {
    let mut base = base_spec();
    base.depends_on.conditions = conditions(&[("database", DependencyCondition::ServiceHealthy)]);
    let mut overlay = overlay_spec();
    overlay.depends_on.conditions = conditions(&[
        ("database", DependencyCondition::ServiceCompletedSuccessfully),
        ("cache", DependencyCondition::ServiceStarted),
    ]);
    let merged = ServiceSpec::merge(&base, &overlay);
    assert_eq!(
        merged.depends_on.conditions.get("database"),
        Some(&DependencyCondition::ServiceCompletedSuccessfully),
    );
    assert_eq!(merged.depends_on.conditions.get("cache"), Some(&DependencyCondition::ServiceStarted));
}

#[test]
fn shutdown_ordering_concat_dedup() {
    let mut base = base_spec();
    base.depends_on.stop_before = vec!["cache".to_owned()];
    base.depends_on.stop_after = vec!["database".to_owned()];
    let mut overlay = overlay_spec();
    overlay.depends_on.stop_before = vec!["cache".to_owned(), "redis".to_owned()];
    overlay.depends_on.stop_after = vec!["queue".to_owned()];
    let merged = ServiceSpec::merge(&base, &overlay);
    assert_eq!(merged.depends_on.stop_before.len(), 2);
    assert!(merged.depends_on.stop_before.contains(&"cache".to_owned()));
    assert!(merged.depends_on.stop_before.contains(&"redis".to_owned()));
    assert_eq!(merged.depends_on.stop_after.len(), 2);
    assert!(merged.depends_on.stop_after.contains(&"database".to_owned()));
    assert!(merged.depends_on.stop_after.contains(&"queue".to_owned()));
}

#[test]
fn launchd_override_merge() {
    let mut base = base_spec();
    base.overrides.launchd.insert("LowPriorityIO".to_owned(), JsonValue::Bool(true));
    base.overrides.launchd.insert("ProcessType".to_owned(), JsonValue::String("Background".to_owned()));
    let mut overlay = overlay_spec();
    overlay.overrides.launchd.insert("LowPriorityIO".to_owned(), JsonValue::Bool(false));
    overlay.overrides.launchd.insert("Nice".to_owned(), JsonValue::Number(JsonNumber::Int(-5)));
    let merged = ServiceSpec::merge(&base, &overlay);
    assert!(
        matches!(merged.overrides.launchd.get("LowPriorityIO"), Some(JsonValue::Bool(false))),
        "overlay wins on conflict"
    );
    assert!(
        matches!(merged.overrides.launchd.get("ProcessType"), Some(JsonValue::String(s)) if s == "Background"),
        "base preserved"
    );
    assert!(
        matches!(merged.overrides.launchd.get("Nice"), Some(JsonValue::Number(JsonNumber::Int(-5)))),
        "overlay added"
    );
}

#[test]
fn logging_spec_overlay_wins() {
    let base_logging = LoggingSpec { stdout: LogTarget::Journal, stderr: LogTarget::Null };
    let overlay_logging = LoggingSpec { stdout: LogTarget::Null, stderr: LogTarget::Journal };
    let merged = LoggingSpec::merge(&base_logging, &overlay_logging);
    assert_eq!(merged.stdout, LogTarget::Null);
    assert_eq!(merged.stderr, LogTarget::Journal);
}

#[test]
fn sockets_concatenate_without_dedup() {
    let mut base = base_spec();
    base.sockets = vec![SocketSpec { listen: "127.0.0.1:8080".to_owned(), socket_type: SocketType::Stream, name: None }];
    let mut overlay = overlay_spec();
    overlay.sockets = vec![
        SocketSpec { listen: "127.0.0.1:8080".to_owned(), socket_type: SocketType::Stream, name: None },
        SocketSpec { listen: "127.0.0.1:9090".to_owned(), socket_type: SocketType::Datagram, name: None },
    ];
    let merged = ServiceSpec::merge(&base, &overlay);
    assert_eq!(merged.sockets.len(), 3, "sockets concat without dedup");
}

#[test]
fn restart_policy_overlay_wins_entirely() {
    let base = RestartPolicy { strategy: RestartStrategy::OnFailure, delay_secs: 5, max_retries: 3, reset_after_secs: 300 };
    let overlay = RestartPolicy { strategy: RestartStrategy::Always, delay_secs: 1, max_retries: 10, reset_after_secs: 60 };
    let merged = RestartPolicy::merge(&base, &overlay);
    assert_eq!(merged.strategy, RestartStrategy::Always);
    assert_eq!(merged.delay_secs, 1);
    assert_eq!(merged.max_retries, 10);
    assert_eq!(merged.reset_after_secs, 60);
}

#[test]
fn resource_limits_both_none() {
    let mut base = base_spec();
    base.resources = None;
    let mut overlay = overlay_spec();
    overlay.resources = None;
    let merged = ServiceSpec::merge(&base, &overlay);
    assert!(merged.resources.is_none());
}

#[test]
fn dependency_spec_merge_all_fields() {
    let base = DependencySpec {
        after: vec!["a".to_owned()],
        before: vec!["b".to_owned()],
        requires: vec!["c".to_owned()],
        wants: vec!["d".to_owned()],
        conflicts: vec!["e".to_owned()],
        stop_before: vec!["f".to_owned()],
        stop_after: vec!["g".to_owned()],
        conditions: conditions(&[("a", DependencyCondition::ServiceStarted)]),
    };
    let overlay = DependencySpec {
        after: vec!["a".to_owned(), "x".to_owned()],
        before: vec!["y".to_owned()],
        requires: vec![],
        wants: vec![],
        conflicts: vec![],
        stop_before: vec![],
        stop_after: vec![],
        conditions: conditions(&[("a", DependencyCondition::ServiceHealthy)]),
    };
    let merged = DependencySpec::merge(&base, &overlay);
    assert_eq!(merged.after.len(), 2);
    assert!(merged.after.contains(&"a".to_owned()));
    assert!(merged.after.contains(&"x".to_owned()));
    assert_eq!(merged.before.len(), 2);
    assert_eq!(merged.requires, vec!["c".to_owned()]);
    assert_eq!(merged.conditions.get("a"), Some(&DependencyCondition::ServiceHealthy), "overlay wins on conditions");
}

#[test]
fn merged_lists_keep_first_occurrence_order() {
    let base = DependencySpec { after: vec!["b".to_owned(), "a".to_owned(), "b".to_owned()], ..DependencySpec::default() };
    let overlay = DependencySpec { after: vec!["c".to_owned(), "a".to_owned()], ..DependencySpec::default() };
    let merged = DependencySpec::merge(&base, &overlay);
    assert_eq!(merged.after, vec!["b", "a", "c"]);
}

#[test]
fn merge_with_itself_keeps_environment() {
    let base = base_spec();
    let merged = ServiceSpec::merge(&base, &base);
    assert_eq!(merged.environment.len(), 2);
    assert_eq!(merged.environment.get("RUST_LOG").unwrap(), "info");
    assert_eq!(merged.args, vec!["--verbose"]);
}

#[test]
fn spec_merge_is_associative() {
    let a = base_spec();
    let b = overlay_spec();
    let mut c = ServiceSpec::new("third-svc", "/usr/bin/third");
    c.description = String::new();
    c.args = vec!["--verbose".to_owned(), "--quiet".to_owned()];
    c.user = Some("thirduser".to_owned());
    c.environment.insert("PORT".to_owned(), "9090".to_owned());
    c.overrides.systemd.insert("Service".to_owned(), section(&[("Nice", "5")]));
    let left = ServiceSpec::merge(&ServiceSpec::merge(&a, &b), &c);
    let right = ServiceSpec::merge(&a, &ServiceSpec::merge(&b, &c));
    assert_eq!(left.name, right.name);
    assert_eq!(left.description, right.description);
    assert_eq!(left.description, "Overlay service");
    assert_eq!(left.command, right.command);
    assert_eq!(left.args, right.args);
    assert_eq!(left.args, vec!["--verbose", "--debug", "--quiet"]);
    assert_eq!(left.user, right.user);
    assert_eq!(left.group, right.group);
    assert_eq!(left.working_directory, right.working_directory);
    for key in ["RUST_LOG", "PORT", "NEW_VAR", "MISSING"] {
        assert_eq!(left.environment.get(key), right.environment.get(key));
    }
    assert_eq!(left.environment.get("PORT").map(|v| v.as_str()), Some("9090"));
    assert_eq!(left.depends_on.after, right.depends_on.after);
    assert_eq!(left.depends_on.requires, right.depends_on.requires);
    assert_eq!(left.restart, right.restart);
    assert_eq!(
        left.overrides.systemd.get("Service").and_then(|s| s.get("Nice")),
        right.overrides.systemd.get("Service").and_then(|s| s.get("Nice"))
    );
    let lr = left.resources.as_ref().unwrap();
    let rr = right.resources.as_ref().unwrap();
    assert_eq!(lr.tasks_max, rr.tasks_max);
    assert_eq!(lr.memory_max, rr.memory_max);
}
