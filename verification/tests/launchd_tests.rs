use shihaisha::engine::launchd::{
    dict_to_xml, log_predicate, no_logs_message, not_running_message, parse_launchctl_list,
    parse_launchctl_print, parse_memory_string, spec_to_plist, status_from_print, tail_lines, LaunchdBackend,
};
use shihaisha::engine::plist_doc::json_value_to_plist;
use shihaisha::json::{JsonNumber, JsonValue};
use shihaisha::types::logging::LogTarget;
use shihaisha::types::resource_limits::{MemorySize, NiceValue, ResourceLimits, Weight};
use shihaisha::types::service_spec::{RestartStrategy, ServiceSpec, ServiceType};
use shihaisha::types::service_status::ServiceState;

const HOME: &str = "/Users/tester";

fn minimal_spec() -> ServiceSpec {
    let mut spec = ServiceSpec::new("com.test.myapp", "/usr/local/bin/myapp");
    spec.description = "Test application".to_owned();
    spec
}

#[test]
fn plist_generation_minimal() {
    let dict = spec_to_plist(&minimal_spec(), HOME);
    assert_eq!(dict.get("Label").and_then(|v| v.as_string()), Some("com.test.myapp"));
    let prog_args = dict
        .get("ProgramArguments")
        .and_then(|v| v.as_array())
        .expect("ProgramArguments should be an array");
    assert_eq!(prog_args.len(), 1);
    assert_eq!(prog_args[0].as_string(), Some("/usr/local/bin/myapp"));
    let keepalive = dict
        .get("KeepAlive")
        .and_then(|v| v.as_dictionary())
        .expect("KeepAlive should be a dictionary for on-failure");
    assert_eq!(keepalive.get("SuccessfulExit").and_then(|v| v.as_boolean()), Some(false));
    assert_eq!(dict.get("RunAtLoad").and_then(|v| v.as_boolean()), Some(true));
}

#[test]
fn plist_with_args_and_env() {
    let mut spec = minimal_spec();
    spec.args = vec!["--port".to_owned(), "8080".to_owned()];
    spec.environment.insert("RUST_LOG".to_owned(), "debug".to_owned());
    spec.working_directory = Some("/var/www".to_owned());
    let dict = spec_to_plist(&spec, HOME);
    let prog_args = dict.get("ProgramArguments").and_then(|v| v.as_array()).unwrap();
    assert_eq!(prog_args.len(), 3);
    assert_eq!(prog_args[1].as_string(), Some("--port"));
    assert_eq!(prog_args[2].as_string(), Some("8080"));
    let env = dict.get("EnvironmentVariables").and_then(|v| v.as_dictionary()).unwrap();
    assert_eq!(env.get("RUST_LOG").and_then(|v| v.as_string()), Some("debug"));
    assert_eq!(dict.get("WorkingDirectory").and_then(|v| v.as_string()), Some("/var/www"));
}

#[test]
fn keepalive_mapping_always() {
    let mut spec = minimal_spec();
    spec.restart.strategy = RestartStrategy::Always;
    let dict = spec_to_plist(&spec, HOME);
    assert_eq!(dict.get("KeepAlive").and_then(|v| v.as_boolean()), Some(true));
}

#[test]
fn keepalive_mapping_on_failure() {
    let mut spec = minimal_spec();
    spec.restart.strategy = RestartStrategy::OnFailure;
    let dict = spec_to_plist(&spec, HOME);
    let keepalive = dict
        .get("KeepAlive")
        .and_then(|v| v.as_dictionary())
        .expect("on-failure should produce KeepAlive dict");
    assert_eq!(keepalive.get("SuccessfulExit").and_then(|v| v.as_boolean()), Some(false));
}

#[test]
fn keepalive_mapping_never_oneshot() {
    let mut spec = minimal_spec();
    spec.restart.strategy = RestartStrategy::Never;
    spec.service_type = ServiceType::Oneshot;
    let dict = spec_to_plist(&spec, HOME);
    assert_eq!(dict.get("KeepAlive").and_then(|v| v.as_boolean()), Some(false));
}

#[test]
fn resource_limits_mapping() {
    let mut spec = minimal_spec();
    spec.resources = Some(ResourceLimits {
        memory_max: Some(MemorySize::parse("1G").unwrap()),
        memory_high: Some(MemorySize::parse("768M").unwrap()),
        cpu_weight: Some(Weight::new(100).unwrap()),
        cpu_quota: None,
        tasks_max: Some(512),
        io_weight: None,
        nice: Some(NiceValue::new(-5).unwrap()),
    });
    let dict = spec_to_plist(&spec, HOME);
    assert_eq!(dict.get("Nice").and_then(|v| v.as_signed_integer()), Some(-5));
    assert_eq!(dict.get("ProcessType").and_then(|v| v.as_string()), Some("Background"));
    let hard = dict
        .get("HardResourceLimits")
        .and_then(|v| v.as_dictionary())
        .expect("should have HardResourceLimits");
    assert!(hard.get("MemoryLock").is_some());
    assert!(hard.get("NumberOfProcesses").is_some());
    let soft = dict
        .get("SoftResourceLimits")
        .and_then(|v| v.as_dictionary())
        .expect("should have SoftResourceLimits");
    assert!(soft.get("MemoryLock").is_some());
    assert!(soft.get("NumberOfProcesses").is_some());
    assert_eq!(hard.get("MemoryLock").and_then(|v| v.as_signed_integer()), Some(1 << 30));
    assert_eq!(soft.get("MemoryLock").and_then(|v| v.as_signed_integer()), Some(768 << 20));
}

#[test]
fn resource_limits_high_cpu_weight() {
    let mut spec = minimal_spec();
    spec.resources = Some(ResourceLimits {
        memory_max: None,
        memory_high: None,
        cpu_weight: Some(Weight::new(5000).unwrap()),
        cpu_quota: None,
        tasks_max: None,
        io_weight: None,
        nice: None,
    });
    let dict = spec_to_plist(&spec, HOME);
    assert_eq!(dict.get("ProcessType").and_then(|v| v.as_string()), Some("Interactive"));
}

#[test]
fn plist_xml_roundtrip() {
    let dict = spec_to_plist(&minimal_spec(), HOME);
    let xml = dict_to_xml(&dict).expect("should serialize to XML");
    assert!(xml.contains("com.test.myapp"));
    assert!(xml.contains("/usr/local/bin/myapp"));
    assert!(xml.contains("Label"));
    assert!(xml.contains("ProgramArguments"));
    let parsed: plist::Value = plist::from_bytes(xml.as_bytes()).expect("should parse XML back");
    let parsed_dict = parsed.as_dictionary().expect("should be a dictionary");
    assert_eq!(parsed_dict.get("Label").and_then(|v| v.as_string()), Some("com.test.myapp"));
}

#[test]
fn throttle_interval_from_restart_delay() {
    let mut spec = minimal_spec();
    spec.restart.delay_secs = 10;
    let dict = spec_to_plist(&spec, HOME);
    assert_eq!(dict.get("ThrottleInterval").and_then(|v| v.as_signed_integer()), Some(10));
}

#[test]
fn parse_memory_string_various() {
    assert_eq!(parse_memory_string("512M"), Some(512 * 1024 * 1024));
    assert_eq!(parse_memory_string("1G"), Some(1024 * 1024 * 1024));
    assert_eq!(parse_memory_string("2048K"), Some(2048 * 1024));
    assert_eq!(parse_memory_string("1024"), Some(1024));
    assert_eq!(parse_memory_string(""), None);
    assert_eq!(parse_memory_string("abc"), None);
}

#[test]
fn json_to_plist_conversion() {
    let json = JsonValue::Object(vec![
        ("key".to_owned(), JsonValue::String("value".to_owned())),
        ("num".to_owned(), JsonValue::Number(JsonNumber::Int(42))),
        ("flag".to_owned(), JsonValue::Bool(true)),
        (
            "nested".to_owned(),
            JsonValue::Object(vec![("inner".to_owned(), JsonValue::String("data".to_owned()))]),
        ),
    ]);
    let pval = json_value_to_plist(&json).expect("should convert");
    let dict = pval.as_dictionary().expect("should be dict");
    assert_eq!(dict.get("key").and_then(|v| v.as_string()), Some("value"));
    assert_eq!(dict.get("num").and_then(|v| v.as_signed_integer()), Some(42));
    assert_eq!(dict.get("flag").and_then(|v| v.as_boolean()), Some(true));
    let inner = dict.get("nested").and_then(|v| v.as_dictionary()).expect("nested dict");
    assert_eq!(inner.get("inner").and_then(|v| v.as_string()), Some("data"));
}

#[test]
fn json_null_has_no_plist_form() {
    assert!(json_value_to_plist(&JsonValue::Null).is_none());
    let arr = JsonValue::Array(vec![JsonValue::Bool(false), JsonValue::Null]);
    let items = json_value_to_plist(&arr).expect("arrays convert");
    let items = items.as_array().expect("array");
    assert_eq!(items.len(), 1, "items without a plist form are dropped");
    assert_eq!(items[0].as_boolean(), Some(false));
    let big = json_value_to_plist(&JsonValue::Number(JsonNumber::UInt(u64::MAX))).unwrap();
    assert_eq!(big.as_real(), Some(u64::MAX as f64), "integers beyond i64 become reals");
}

#[test]
fn launchd_overrides_applied() {
    let mut spec = minimal_spec();
    spec.overrides.launchd.insert("LowPriorityIO".to_owned(), JsonValue::Bool(true));
    spec.overrides.launchd.insert("ThrottleInterval".to_owned(), JsonValue::Number(JsonNumber::Int(30)));
    let dict = spec_to_plist(&spec, HOME);
    assert_eq!(dict.get("LowPriorityIO").and_then(|v| v.as_boolean()), Some(true));
    assert_eq!(dict.get("ThrottleInterval").and_then(|v| v.as_signed_integer()), Some(30));
}

#[test]
fn parse_launchctl_print_running() {
    let output = r"
com.test.myapp = {
    active count = 1
    state = running
    pid = 54321
    last exit code = 0
}
";
    let (state, pid, exit_code) = parse_launchctl_print(output);
    assert_eq!(state, ServiceState::Running);
    assert_eq!(pid, Some(54321));
    assert_eq!(exit_code, Some(0));
}

#[test]
fn parse_launchctl_print_not_running() {
    let output = r"
com.test.myapp = {
    state = not running
    last exit code = 1
}
";
    let (state, pid, exit_code) = parse_launchctl_print(output);
    assert_eq!(state, ServiceState::Stopped);
    assert!(pid.is_none());
    assert_eq!(exit_code, Some(1));
}

#[test]
fn logging_file_targets_in_plist() {
    let mut spec = minimal_spec();
    spec.logging.stdout = LogTarget::File("/var/log/app/out.log".to_owned());
    spec.logging.stderr = LogTarget::Null;
    let dict = spec_to_plist(&spec, HOME);
    assert_eq!(dict.get("StandardOutPath").and_then(|v| v.as_string()), Some("/var/log/app/out.log"));
    assert_eq!(dict.get("StandardErrorPath").and_then(|v| v.as_string()), Some("/dev/null"));
}

#[test]
fn inherited_logging_goes_to_home_logs() {
    let journal = spec_to_plist(&minimal_spec(), HOME);
    assert!(journal.get("StandardOutPath").is_none(), "journal logging needs no path");
    let mut spec = minimal_spec();
    spec.logging.stdout = LogTarget::Inherit;
    let dict = spec_to_plist(&spec, HOME);
    assert_eq!(
        dict.get("StandardOutPath").and_then(|v| v.as_string()),
        Some("/Users/tester/Library/Logs/com.test.myapp.stdout.log")
    );
}

#[test]
fn backend_targets_and_paths() {
    let user = LaunchdBackend::new(false, 501, HOME);
    assert_eq!(user.domain_target(), "gui/501");
    assert_eq!(user.service_target("com.x"), "gui/501/com.x");
    assert_eq!(user.plist_path("com.x"), "/Users/tester/Library/LaunchAgents/com.x.plist");
    let root = LaunchdBackend::new(true, 0, "/var/root");
    assert_eq!(root.domain_target(), "system");
    assert_eq!(root.plist_path("com.x"), "/Library/LaunchDaemons/com.x.plist");
    assert_eq!(user.name(), "launchd");
}

#[test]
fn status_and_list_parsing() {
    let s = status_from_print("com.x", None);
    assert_eq!(s.state, ServiceState::Inactive);
    let s = status_from_print("com.x", Some("state = running\npid = 7\n"));
    assert_eq!(s.state, ServiceState::Running);
    assert_eq!(s.pid, Some(7));
    let rows = parse_launchctl_list("PID\tStatus\tLabel\n123\t0\tcom.a\n-\t1\tcom.b\n");
    assert_eq!(rows.len(), 2);
    assert_eq!(rows[0].name, "com.a");
    assert_eq!(rows[0].pid, Some(123));
    assert_eq!(rows[1].name, "com.b");
    assert_eq!(rows[1].pid, None);
}

#[test]
fn log_helpers() {
    let all = vec!["a".to_owned(), "b".to_owned(), "c".to_owned()];
    assert_eq!(tail_lines(&all, 2), vec!["b", "c"]);
    assert_eq!(tail_lines(&all, 10), vec!["a", "b", "c"]);
    assert_eq!(log_predicate("app"), "processImagePath contains 'app'");
    assert_eq!(not_running_message("app"), "service app is not running, cannot reload");
    assert!(no_logs_message("app").starts_with("No logs available for app"));
}
