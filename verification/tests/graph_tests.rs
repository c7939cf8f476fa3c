use shihaisha::error::Error;
use shihaisha::graph::{resolve_order, validate_references};
use shihaisha::types::service_spec::{DependencySpec, ServiceSpec};

fn spec_with_deps(name: &str, deps: DependencySpec) -> ServiceSpec {
    let mut spec = ServiceSpec::new(name, "/usr/bin/test");
    spec.depends_on = deps;
    spec
}

fn no_deps(name: &str) -> ServiceSpec {
    ServiceSpec::new(name, "/usr/bin/test")
}

fn after(names: &[&str]) -> DependencySpec {
    DependencySpec { after: names.iter().map(|n| n.to_string()).collect(), ..DependencySpec::default() }
}

fn pos(order: &[String], name: &str) -> usize {
    order.iter().position(|n| n == name).unwrap()
}

#[test]
fn empty_set() {
    let result = resolve_order(&[]).expect("empty set");
    assert!(result.is_empty());
}

#[test]
fn single_service() {
    let specs = [no_deps("alpha")];
    let order = resolve_order(&specs).expect("single");
    assert_eq!(order, vec!["alpha"]);
}

#[test]
fn linear_chain() {
    let specs = [no_deps("A"), spec_with_deps("B", after(&["A"])), spec_with_deps("C", after(&["B"]))];
    let order = resolve_order(&specs).expect("linear");
    assert_eq!(order, vec!["A", "B", "C"]);
}

#[test]
fn diamond() {
    let specs = [
        no_deps("A"),
        spec_with_deps("B", after(&["A"])),
        spec_with_deps("C", after(&["A"])),
        spec_with_deps("D", after(&["B", "C"])),
    ];
    let order = resolve_order(&specs).expect("diamond");
    assert_eq!(order[0], "A");
    assert_eq!(order[3], "D");
    assert!(order[1..3].contains(&"B".to_owned()) && order[1..3].contains(&"C".to_owned()));
}

#[test]
fn cycle_detected() {
    let specs = [spec_with_deps("A", after(&["B"])), spec_with_deps("B", after(&["A"]))];
    let result = resolve_order(&specs);
    assert!(result.is_err());
    let err = result.unwrap_err();
    assert!(err.to_string().contains("circular dependency"), "{:?}", err);
    assert!(err.to_string().contains('A') && err.to_string().contains('B'), "{:?}", err);
}

#[test]
fn before_and_after() {
    let specs = [
        spec_with_deps("X", DependencySpec { before: vec!["Z".to_owned()], ..DependencySpec::default() }),
        spec_with_deps("Y", after(&["X"])),
        no_deps("Z"),
    ];
    let order = resolve_order(&specs).expect("before_and_after");
    let x_pos = pos(&order, "X");
    let z_pos = pos(&order, "Z");
    assert!(x_pos < z_pos, "X should come before Z, got order: {:?}", order);
    let y_pos = pos(&order, "Y");
    assert!(y_pos > x_pos, "Y should come after X, got order: {:?}", order);
}

#[test]
fn requires_creates_ordering() {
    let specs = [
        no_deps("db"),
        spec_with_deps("svc", DependencySpec { requires: vec!["db".to_owned()], ..DependencySpec::default() }),
    ];
    let order = resolve_order(&specs).expect("requires");
    assert_eq!(order, vec!["db", "svc"]);
}

#[test]
fn validate_missing_reference() {
    let specs = [spec_with_deps("svc", after(&["nonexistent"]))];
    let result = validate_references(&specs);
    assert!(result.is_err());
    let err = result.unwrap_err();
    assert!(err.to_string().contains("nonexistent"), "{:?}", err);
    assert!(err.to_string().contains("svc"), "{:?}", err);
}

#[test]
fn validate_all_references_exist() {
    let specs = [
        no_deps("db"),
        spec_with_deps(
            "svc",
            DependencySpec {
                after: vec!["db".to_owned()],
                requires: vec!["db".to_owned()],
                ..DependencySpec::default()
            },
        ),
    ];
    validate_references(&specs).expect("all references should be valid");
}

#[test]
fn deterministic_output() {
    let specs = [no_deps("delta"), no_deps("alpha"), no_deps("charlie"), no_deps("bravo")];
    let order1 = resolve_order(&specs).expect("run 1");
    let order2 = resolve_order(&specs).expect("run 2");
    assert_eq!(order1, order2, "same input should always produce same output");
    assert_eq!(order1, vec!["alpha", "bravo", "charlie", "delta"]);
}

#[test]
fn parallel_independent_sorted() {
    let specs = [
        no_deps("A"),
        spec_with_deps("B", after(&["A"])),
        no_deps("C"),
        spec_with_deps("D", after(&["C"])),
    ];
    let order = resolve_order(&specs).expect("parallel");
    assert!(pos(&order, "A") < pos(&order, "B"), "A before B");
    assert!(pos(&order, "C") < pos(&order, "D"), "C before D");
    assert_eq!(order.len(), 4);
}

#[test]
fn wants_creates_ordering() {
    let specs = [
        no_deps("cache"),
        spec_with_deps("svc", DependencySpec { wants: vec!["cache".to_owned()], ..DependencySpec::default() }),
    ];
    let order = resolve_order(&specs).expect("wants");
    assert_eq!(order, vec!["cache", "svc"]);
}

#[test]
fn three_node_cycle() {
    let specs = [
        spec_with_deps("A", after(&["C"])),
        spec_with_deps("B", after(&["A"])),
        spec_with_deps("C", after(&["B"])),
    ];
    let result = resolve_order(&specs);
    assert!(result.is_err());
    assert!(result.unwrap_err().to_string().contains("circular dependency"));
}

#[test]
fn validate_then_resolve_succeeds() {
    let specs = [
        no_deps("db"),
        spec_with_deps("cache", after(&["db"])),
        spec_with_deps(
            "app",
            DependencySpec {
                after: vec!["cache".to_owned()],
                requires: vec!["db".to_owned()],
                ..DependencySpec::default()
            },
        ),
    ];
    validate_references(&specs).expect("all references should be valid");
    let order = resolve_order(&specs).expect("should resolve without cycles");
    assert!(pos(&order, "db") < pos(&order, "cache"), "db before cache");
    assert!(pos(&order, "cache") < pos(&order, "app"), "cache before app");
}

#[test]
fn resolve_order_with_unknown_deps_graceful() {
    let specs = [
        no_deps("standalone"),
        spec_with_deps(
            "orphan",
            DependencySpec {
                after: vec!["unknown-service".to_owned()],
                wants: vec!["another-missing".to_owned()],
                ..DependencySpec::default()
            },
        ),
    ];
    let order = resolve_order(&specs).expect("should not crash on unknown deps");
    assert_eq!(order.len(), 2);
    assert!(order.contains(&"standalone".to_owned()));
    assert!(order.contains(&"orphan".to_owned()));
}

#[test]
fn validate_missing_before_reference() {
    let specs = [spec_with_deps("svc", DependencySpec { before: vec!["nonexistent".to_owned()], ..DependencySpec::default() })];
    let result = validate_references(&specs);
    assert!(result.is_err());
    assert!(result.unwrap_err().to_string().contains("nonexistent"));
}

#[test]
fn validate_missing_requires_reference() {
    let specs = [spec_with_deps("svc", DependencySpec { requires: vec!["missing-db".to_owned()], ..DependencySpec::default() })];
    let result = validate_references(&specs);
    assert!(result.is_err());
    assert!(result.unwrap_err().to_string().contains("missing-db"));
}

#[test]
fn validate_missing_wants_reference() {
    let specs = [spec_with_deps("svc", DependencySpec { wants: vec!["missing-cache".to_owned()], ..DependencySpec::default() })];
    let result = validate_references(&specs);
    assert!(result.is_err());
    assert!(result.unwrap_err().to_string().contains("missing-cache"));
}

#[test]
fn validate_missing_conflicts_reference() {
    let specs = [spec_with_deps("svc", DependencySpec { conflicts: vec!["old-svc".to_owned()], ..DependencySpec::default() })];
    let result = validate_references(&specs);
    assert!(result.is_err());
    assert!(result.unwrap_err().to_string().contains("old-svc"));
}

#[test]
fn validate_missing_stop_before_reference() {
    let specs = [spec_with_deps("svc", DependencySpec { stop_before: vec!["missing-stop".to_owned()], ..DependencySpec::default() })];
    let result = validate_references(&specs);
    assert!(result.is_err());
    assert!(result.unwrap_err().to_string().contains("missing-stop"));
}

#[test]
fn validate_missing_stop_after_reference() {
    let specs = [spec_with_deps("svc", DependencySpec { stop_after: vec!["missing-dep".to_owned()], ..DependencySpec::default() })];
    let result = validate_references(&specs);
    assert!(result.is_err());
    assert!(result.unwrap_err().to_string().contains("missing-dep"));
}

#[test]
fn resolve_order_before_pointing_at_unknown_is_silent() {
    let specs = [spec_with_deps("svc", DependencySpec { before: vec!["nonexistent".to_owned()], ..DependencySpec::default() })];
    let order = resolve_order(&specs).expect("should not error");
    assert_eq!(order, vec!["svc"]);
}

#[test]
fn resolve_order_requires_unknown_is_silent() {
    let specs = [spec_with_deps("svc", DependencySpec { requires: vec!["unknown".to_owned()], ..DependencySpec::default() })];
    let order = resolve_order(&specs).expect("should not error");
    assert_eq!(order, vec!["svc"]);
}

#[test]
fn validate_empty_set_succeeds() {
    let specs: Vec<ServiceSpec> = vec![];
    validate_references(&specs).expect("empty set is valid");
}

#[test]
fn validate_all_dependency_types_present() {
    let specs = [
        no_deps("db"),
        no_deps("cache"),
        no_deps("old-svc"),
        no_deps("stop-target"),
        spec_with_deps(
            "svc",
            DependencySpec {
                after: vec!["db".to_owned()],
                before: vec!["cache".to_owned()],
                requires: vec!["db".to_owned()],
                wants: vec!["cache".to_owned()],
                conflicts: vec!["old-svc".to_owned()],
                stop_before: vec!["cache".to_owned()],
                stop_after: vec!["stop-target".to_owned()],
                ..DependencySpec::default()
            },
        ),
    ];
    validate_references(&specs).expect("all references exist");
}

#[test]
fn cycle_error_is_dependency_error() {
    let specs = [spec_with_deps("A", after(&["B"])), spec_with_deps("B", after(&["A"]))];
    let err = resolve_order(&specs).unwrap_err();
    assert!(!err.is_retryable(), "cycle errors should not be retryable");
    assert!(matches!(err, Error::DependencyError(_)));
}

#[test]
fn cycle_message_names_stuck_services_sorted() {
    let specs = [
        no_deps("free"),
        spec_with_deps("b", after(&["a"])),
        spec_with_deps("a", after(&["b"])),
    ];
    let err = resolve_order(&specs).unwrap_err();
    assert_eq!(err.to_string(), "dependency error: circular dependency involving: a, b");
}

#[test]
fn services_start_in_the_order_they_become_ready() {
    // "a" and "z" are ready at once (name order); "b" becomes ready only once "a" has started.
    let specs = [no_deps("z"), no_deps("a"), spec_with_deps("b", after(&["a"]))];
    let order = resolve_order(&specs).expect("acyclic");
    assert_eq!(order, vec!["a", "z", "b"]);
}

#[test]
fn duplicate_dependency_edges_resolve() {
    let specs = [
        no_deps("db"),
        spec_with_deps(
            "svc",
            DependencySpec {
                after: vec!["db".to_owned(), "db".to_owned()],
                requires: vec!["db".to_owned()],
                ..DependencySpec::default()
            },
        ),
    ];
    let order = resolve_order(&specs).expect("acyclic");
    assert_eq!(order, vec!["db", "svc"]);
}

#[test]
fn validate_message_names_dependency_and_service() {
    let specs = [no_deps("a"), spec_with_deps("svc", after(&["a", "ghost"]))];
    let err = validate_references(&specs).unwrap_err();
    assert_eq!(
        err.to_string(),
        "dependency error: service 'svc' references unknown dependency 'ghost'"
    );
}
