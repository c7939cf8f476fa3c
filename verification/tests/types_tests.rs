use shihaisha::types::backend_overrides::BackendOverrides;
use shihaisha::types::logging::{LogTarget, LoggingSpec};
use shihaisha::types::resource_limits::{MemorySize, NiceValue, ResourceLimits, Weight};
use shihaisha::types::service_group::GroupRestartStrategy;
use shihaisha::types::service_spec::{
    DependencyCondition, DependencySpec, RestartPolicy, RestartStrategy, ServiceSpec, ServiceType,
};
use shihaisha::types::service_status::{HealthState, ServicePhase, ServiceState, ServiceStatus};
use shihaisha::types::socket_spec::SocketType;
use shihaisha::error::Error;

// --- logging ---

#[test]
fn default_is_journal() {
    let logging = LoggingSpec::default();
    assert!(matches!(logging.stdout, LogTarget::Journal));
    assert!(matches!(logging.stderr, LogTarget::Journal));
}

// --- backend overrides ---

#[test]
fn default_is_empty() {
    let overrides = BackendOverrides::default();
    assert!(overrides.systemd.is_empty());
    assert!(overrides.launchd.is_empty());
}

// --- resource limits ---

#[test]
fn default_is_all_none() {
    let limits = ResourceLimits::default();
    assert!(limits.memory_max.is_none());
    assert!(limits.memory_high.is_none());
    assert!(limits.cpu_weight.is_none());
    assert!(limits.cpu_quota.is_none());
    assert!(limits.tasks_max.is_none());
    assert!(limits.io_weight.is_none());
    assert!(limits.nice.is_none());
}

#[test]
fn parse_memory_512m() {
    let m = MemorySize::parse("512M").unwrap();
    assert_eq!(m.as_bytes(), 512 * 1024 * 1024);
}

#[test]
fn parse_memory_2g() {
    let m = MemorySize::parse("2G").unwrap();
    assert_eq!(m.as_bytes(), 2 * 1024 * 1024 * 1024);
}

#[test]
fn parse_memory_1t() {
    let m = MemorySize::parse("1T").unwrap();
    assert_eq!(m.as_bytes(), 1024_u64 * 1024 * 1024 * 1024);
}

#[test]
fn parse_memory_1024k() {
    let m = MemorySize::parse("1024K").unwrap();
    assert_eq!(m.as_bytes(), 1024 * 1024);
}

#[test]
fn parse_memory_invalid() {
    assert!(MemorySize::parse("abc").is_err());
    assert!(MemorySize::parse("").is_err());
}

#[test]
fn weight_valid() {
    assert!(Weight::new(1).is_ok());
    assert!(Weight::new(5000).is_ok());
    assert!(Weight::new(10000).is_ok());
}

#[test]
fn weight_invalid() {
    assert!(Weight::new(0).is_err());
    assert!(Weight::new(10001).is_err());
}

#[test]
fn nice_valid() {
    assert!(NiceValue::new(-20).is_ok());
    assert!(NiceValue::new(0).is_ok());
    assert!(NiceValue::new(19).is_ok());
}

#[test]
fn nice_invalid() {
    assert!(NiceValue::new(-21).is_err());
    assert!(NiceValue::new(20).is_err());
}

#[test]
fn memory_size_overflow_error() {
    let result = MemorySize::parse("999999999999T");
    assert!(result.is_err(), "should fail on overflow");
    let err = result.unwrap_err();
    assert!(err.to_string().contains("overflow"), "error: {:?}", err);
}

#[test]
fn memory_size_display() {
    let m = MemorySize::parse("512M").unwrap();
    assert_eq!(m.to_string(), "512M");
    let m = MemorySize::from_bytes(1024);
    assert_eq!(m.to_string(), "1024");
}

#[test]
fn weight_display() {
    let w = Weight::new(100).unwrap();
    assert_eq!(w.to_string(), "100");
    let w = Weight::new(10000).unwrap();
    assert_eq!(w.to_string(), "10000");
}

#[test]
fn nice_value_display() {
    let n = NiceValue::new(-20).unwrap();
    assert_eq!(n.to_string(), "-20");
    let n = NiceValue::new(0).unwrap();
    assert_eq!(n.to_string(), "0");
    let n = NiceValue::new(19).unwrap();
    assert_eq!(n.to_string(), "19");
}

#[test]
fn memory_size_from_bytes_preserves_value() {
    let m = MemorySize::from_bytes(0);
    assert_eq!(m.as_bytes(), 0);
    let m = MemorySize::from_bytes(u64::MAX);
    assert_eq!(m.as_bytes(), u64::MAX);
}

#[test]
fn memory_size_parse_plain_number() {
    let m = MemorySize::parse("4096").unwrap();
    assert_eq!(m.as_bytes(), 4096);
}

#[test]
fn memory_size_parse_whitespace_trimmed() {
    let m = MemorySize::parse("  512M  ").unwrap();
    assert_eq!(m.as_bytes(), 512 * 1024 * 1024);
}

#[test]
fn weight_boundary_values() {
    assert!(Weight::new(1).is_ok());
    assert!(Weight::new(10000).is_ok());
    assert!(Weight::new(0).is_err());
    assert!(Weight::new(10001).is_err());
    assert!(Weight::new(u64::MAX).is_err());
}

#[test]
fn nice_boundary_values() {
    assert!(NiceValue::new(-20).is_ok());
    assert!(NiceValue::new(19).is_ok());
    assert!(NiceValue::new(-21).is_err());
    assert!(NiceValue::new(20).is_err());
    assert!(NiceValue::new(i32::MAX).is_err());
    assert!(NiceValue::new(i32::MIN).is_err());
}

#[test]
fn memory_size_fromstr_roundtrip() {
    for input in ["512M", "2G", "1T", "1024K", "4096"] {
        let m: MemorySize = input.parse().expect("parse");
        assert_eq!(m.to_string(), input);
    }
}

#[test]
fn memory_size_fromstr_invalid() {
    let result: Result<MemorySize, Error> = "abc".parse();
    assert!(result.is_err());
}

#[test]
fn weight_try_from_u64() {
    let w: Weight = 500u64.try_into().expect("valid weight");
    assert_eq!(w.value(), 500);
    let result: Result<Weight, Error> = 0u64.try_into();
    assert!(result.is_err());
}

#[test]
fn nice_value_try_from_i32() {
    let n: NiceValue = (-5i32).try_into().expect("valid nice");
    assert_eq!(n.value(), -5);
    let result: Result<NiceValue, Error> = 20i32.try_into();
    assert!(result.is_err());
}

#[test]
fn memory_size_error_messages_are_exact() {
    assert_eq!(
        MemorySize::parse("   ").unwrap_err().to_string(),
        "config error: empty memory size string"
    );
    assert_eq!(
        MemorySize::parse(" 12X ").unwrap_err().to_string(),
        "config error: invalid memory size: 12X"
    );
    assert_eq!(
        MemorySize::parse("999999999999T").unwrap_err().to_string(),
        "config error: memory size overflow: 999999999999T"
    );
    assert_eq!(MemorySize::parse("16777215T").unwrap().as_bytes(), 16777215u64 << 40);
    assert!(MemorySize::parse("16777216T").is_err());
}

#[test]
fn weight_and_nice_error_messages_are_exact() {
    assert_eq!(Weight::new(0).unwrap_err().to_string(), "config error: weight must be 1-10000, got 0");
    assert_eq!(NiceValue::new(-21).unwrap_err().to_string(), "config error: nice must be -20..19, got -21");
}

// --- service group ---

#[test]
fn group_restart_strategy_default_is_one_for_one() {
    assert_eq!(GroupRestartStrategy::default(), GroupRestartStrategy::OneForOne);
}

#[test]
fn group_restart_strategy_display() {
    assert_eq!(GroupRestartStrategy::OneForOne.to_string(), "one_for_one");
    assert_eq!(GroupRestartStrategy::OneForAll.to_string(), "one_for_all");
    assert_eq!(GroupRestartStrategy::RestForOne.to_string(), "rest_for_one");
}

// --- service spec ---

#[test]
fn restart_policy_default() {
    let policy = RestartPolicy::default();
    assert_eq!(policy.strategy, RestartStrategy::OnFailure);
    assert_eq!(policy.delay_secs, 5);
    assert_eq!(policy.max_retries, 0);
    assert_eq!(policy.reset_after_secs, 300);
}

#[test]
fn dependency_spec_default_is_empty() {
    let dep = DependencySpec::default();
    assert!(dep.after.is_empty());
    assert!(dep.before.is_empty());
    assert!(dep.requires.is_empty());
    assert!(dep.wants.is_empty());
    assert!(dep.conflicts.is_empty());
    assert!(dep.conditions.is_empty());
    assert!(dep.stop_before.is_empty());
    assert!(dep.stop_after.is_empty());
}

#[test]
fn service_spec_new_constructor_defaults() {
    let spec = ServiceSpec::new("test", "/bin/true");
    assert_eq!(spec.name, "test");
    assert_eq!(spec.command, "/bin/true");
    assert_eq!(spec.service_type, ServiceType::Simple);
    assert_eq!(spec.restart.strategy, RestartStrategy::OnFailure);
    assert_eq!(spec.timeout_start_sec, 90);
    assert!(spec.args.is_empty());
    assert!(spec.environment.is_empty());
}

#[test]
fn validate_valid_spec() {
    let spec = ServiceSpec::new("test", "/bin/true");
    spec.validate().expect("should be valid");
}

#[test]
fn validate_empty_name() {
    let spec = ServiceSpec::new("", "/bin/true");
    let err = spec.validate().unwrap_err();
    assert!(err.to_string().contains("name must not be empty"));
}

#[test]
fn validate_empty_command() {
    let spec = ServiceSpec::new("test", "");
    let err = spec.validate().unwrap_err();
    assert!(err.to_string().contains("command must not be empty"));
}

#[test]
fn validate_zero_timeout_start() {
    let mut spec = ServiceSpec::new("test", "/bin/true");
    spec.timeout_start_sec = 0;
    let err = spec.validate().unwrap_err();
    assert!(err.to_string().contains("timeout_start_sec must be > 0"));
}

#[test]
fn validate_zero_timeout_stop() {
    let mut spec = ServiceSpec::new("test", "/bin/true");
    spec.timeout_stop_sec = 0;
    let err = spec.validate().unwrap_err();
    assert!(err.to_string().contains("timeout_stop_sec must be > 0"));
}

#[test]
fn weight_rejects_out_of_range() {
    let err = Weight::new(0).unwrap_err();
    assert!(err.to_string().contains("weight must be 1-10000"));
    let err = Weight::new(10001).unwrap_err();
    assert!(err.to_string().contains("weight must be 1-10000"));
}

#[test]
fn nice_rejects_out_of_range() {
    let err = NiceValue::new(20).unwrap_err();
    assert!(err.to_string().contains("nice must be -20..19"));
    let err = NiceValue::new(-21).unwrap_err();
    assert!(err.to_string().contains("nice must be -20..19"));
}

#[test]
fn validate_restart_delay_zero_with_strategy() {
    let mut spec = ServiceSpec::new("test", "/bin/true");
    spec.restart.strategy = RestartStrategy::Always;
    spec.restart.delay_secs = 0;
    let err = spec.validate().unwrap_err();
    assert!(err.to_string().contains("delay_secs must be > 0"));
}

#[test]
fn validate_restart_delay_zero_with_never() {
    let mut spec = ServiceSpec::new("test", "/bin/true");
    spec.restart.strategy = RestartStrategy::Never;
    spec.restart.delay_secs = 0;
    spec.validate().expect("Never strategy allows delay_secs=0");
}

#[test]
fn validate_reports_first_failure() {
    let mut spec = ServiceSpec::new("", "");
    spec.timeout_start_sec = 0;
    assert_eq!(
        spec.validate().unwrap_err(),
        Error::ConfigError("service name must not be empty".to_owned())
    );
}

#[test]
fn service_type_display() {
    assert_eq!(ServiceType::Simple.to_string(), "simple");
    assert_eq!(ServiceType::Oneshot.to_string(), "oneshot");
    assert_eq!(ServiceType::Forking.to_string(), "forking");
    assert_eq!(ServiceType::Notify.to_string(), "notify");
    assert_eq!(ServiceType::Timer.to_string(), "timer");
    assert_eq!(ServiceType::Socket.to_string(), "socket");
}

#[test]
fn restart_strategy_display() {
    assert_eq!(RestartStrategy::Always.to_string(), "always");
    assert_eq!(RestartStrategy::OnFailure.to_string(), "on-failure");
    assert_eq!(RestartStrategy::OnSuccess.to_string(), "on-success");
    assert_eq!(RestartStrategy::Never.to_string(), "never");
}

#[test]
fn probes_default_to_none() {
    let spec = ServiceSpec::new("test", "/bin/true");
    assert!(spec.liveness.is_none());
    assert!(spec.readiness.is_none());
    assert!(spec.startup.is_none());
}

#[test]
fn critical_defaults_to_false() {
    let spec = ServiceSpec::new("test", "/bin/true");
    assert!(!spec.critical);
}

#[test]
fn dependency_condition_default_is_service_started() {
    assert_eq!(DependencyCondition::default(), DependencyCondition::ServiceStarted);
}

#[test]
fn dependency_condition_display() {
    assert_eq!(DependencyCondition::ServiceStarted.to_string(), "service_started");
    assert_eq!(DependencyCondition::ServiceHealthy.to_string(), "service_healthy");
    assert_eq!(
        DependencyCondition::ServiceCompletedSuccessfully.to_string(),
        "service_completed_successfully"
    );
}

// --- service status ---

#[test]
fn health_state_default_is_unknown() {
    assert_eq!(HealthState::default(), HealthState::Unknown);
}

#[test]
fn service_status_new_constructor_defaults() {
    let status = ServiceStatus::new("test-svc", ServiceState::Running, "native");
    assert_eq!(status.name, "test-svc");
    assert_eq!(status.state, ServiceState::Running);
    assert_eq!(status.backend, "native");
    assert!(status.pid.is_none());
    assert!(status.exit_code.is_none());
    assert_eq!(status.restart_count, 0);
    assert_eq!(status.health, HealthState::Unknown);
    assert!(status.memory_bytes.is_none());
}

#[test]
fn with_pid_builder() {
    let status = ServiceStatus::new("test", ServiceState::Running, "native").with_pid(12345);
    assert_eq!(status.pid, Some(12345));
}

#[test]
fn service_state_display() {
    assert_eq!(ServiceState::Inactive.to_string(), "inactive");
    assert_eq!(ServiceState::Running.to_string(), "running");
    assert_eq!(ServiceState::Degraded.to_string(), "degraded");
    assert_eq!(ServiceState::Failed.to_string(), "failed");
    assert_eq!(ServiceState::Starting.to_string(), "starting");
    assert_eq!(ServiceState::Stopping.to_string(), "stopping");
    assert_eq!(ServiceState::Stopped.to_string(), "stopped");
    assert_eq!(ServiceState::Reloading.to_string(), "reloading");
    assert_eq!(ServiceState::Unknown.to_string(), "unknown");
}

#[test]
fn health_state_display() {
    assert_eq!(HealthState::Unknown.to_string(), "unknown");
    assert_eq!(HealthState::Healthy.to_string(), "healthy");
    assert_eq!(HealthState::Unhealthy.to_string(), "unhealthy");
    assert_eq!(HealthState::Degraded.to_string(), "degraded");
}

#[test]
fn phase_mapping() {
    assert_eq!(ServiceState::Inactive.phase(), ServicePhase::Pending);
    assert_eq!(ServiceState::Stopped.phase(), ServicePhase::Pending);
    assert_eq!(ServiceState::Starting.phase(), ServicePhase::Pending);
    assert_eq!(ServiceState::Running.phase(), ServicePhase::Running);
    assert_eq!(ServiceState::Degraded.phase(), ServicePhase::Running);
    assert_eq!(ServiceState::Reloading.phase(), ServicePhase::Running);
    assert_eq!(ServiceState::Stopping.phase(), ServicePhase::Running);
    assert_eq!(ServiceState::Failed.phase(), ServicePhase::Failed);
    assert_eq!(ServiceState::Unknown.phase(), ServicePhase::Unknown);
}

#[test]
fn service_phase_display() {
    assert_eq!(ServicePhase::Pending.to_string(), "pending");
    assert_eq!(ServicePhase::Running.to_string(), "running");
    assert_eq!(ServicePhase::Succeeded.to_string(), "succeeded");
    assert_eq!(ServicePhase::Failed.to_string(), "failed");
    assert_eq!(ServicePhase::Unknown.to_string(), "unknown");
}

#[test]
fn service_state_fromstr_roundtrip() {
    for state in [
        ServiceState::Inactive,
        ServiceState::Starting,
        ServiceState::Running,
        ServiceState::Degraded,
        ServiceState::Reloading,
        ServiceState::Stopping,
        ServiceState::Stopped,
        ServiceState::Failed,
        ServiceState::Unknown,
    ] {
        let s = state.to_string();
        let parsed: ServiceState = s.parse().expect("parse");
        assert_eq!(parsed, state);
    }
}

#[test]
fn service_state_fromstr_invalid() {
    let result: Result<ServiceState, Error> = "bogus".parse();
    assert!(result.is_err());
}

#[test]
fn service_phase_fromstr_roundtrip() {
    for phase in [
        ServicePhase::Pending,
        ServicePhase::Running,
        ServicePhase::Succeeded,
        ServicePhase::Failed,
        ServicePhase::Unknown,
    ] {
        let s = phase.to_string();
        let parsed: ServicePhase = s.parse().expect("parse");
        assert_eq!(parsed, phase);
    }
}

#[test]
fn service_phase_fromstr_invalid() {
    let result: Result<ServicePhase, Error> = "bogus".parse();
    assert!(result.is_err());
}

#[test]
fn health_state_fromstr_roundtrip() {
    for state in [
        HealthState::Unknown,
        HealthState::Healthy,
        HealthState::Unhealthy,
        HealthState::Degraded,
    ] {
        let s = state.to_string();
        let parsed: HealthState = s.parse().expect("parse");
        assert_eq!(parsed, state);
    }
}

#[test]
fn health_state_fromstr_invalid() {
    let result: Result<HealthState, Error> = "bogus".parse();
    assert!(result.is_err());
}

// --- sockets ---

#[test]
fn socket_type_display() {
    assert_eq!(SocketType::Stream.to_string(), "stream");
    assert_eq!(SocketType::Datagram.to_string(), "datagram");
    assert_eq!(SocketType::Sequential.to_string(), "sequential");
}

#[test]
fn socket_type_fromstr_roundtrip() {
    for ty in [SocketType::Stream, SocketType::Datagram, SocketType::Sequential] {
        let s = ty.to_string();
        let parsed: SocketType = s.parse().expect("parse");
        assert_eq!(parsed, ty);
    }
}

#[test]
fn socket_type_fromstr_invalid() {
    let result: Result<SocketType, Error> = "bogus".parse();
    assert!(result.is_err());
}

#[test]
fn memory_size_text_reads_back() {
    for bytes in [0u64, 7, 1024, u64::MAX] {
        let m = MemorySize::from_bytes(bytes);
        assert_eq!(MemorySize::parse(&m.to_string()).unwrap().as_bytes(), bytes);
    }
    let m = MemorySize::parse(" 3G ").unwrap();
    assert_eq!(m.to_string(), "3G");
    assert_eq!(MemorySize::parse(&m.to_string()).unwrap().as_bytes(), 3 << 30);
    let copy = m.clone();
    assert_eq!(copy, m);
}

#[test]
fn memory_size_reparse_is_equal() {
    for text in ["512M", "  2G ", "4096", "1T"] {
        let m = MemorySize::parse(text).unwrap();
        assert_eq!(MemorySize::parse(&m.to_string()), Ok(m.clone()));
    }
    for bytes in [0u64, 1024, u64::MAX] {
        let m = MemorySize::from_bytes(bytes);
        assert_eq!(m.to_string(), bytes.to_string());
        assert_eq!(MemorySize::parse(&bytes.to_string()), Ok(m));
    }
}

#[test]
fn weight_new_of_value_is_same() {
    for v in [1u64, 100, 5000, 10000] {
        let w = Weight::new(v).unwrap();
        assert_eq!(Weight::new(w.value()), Ok(w));
    }
}
