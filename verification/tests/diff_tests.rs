use serde_json::Value;
use shihaisha::diff::{diff_trees, Change, DiffNode};

/// The document tree of a JSON value: its compact text, and for an object its members.
fn node(v: &Value) -> DiffNode {
    DiffNode {
        text: v.to_string(),
        members: match v {
            Value::Object(m) => Some(m.iter().map(|(k, x)| (k.clone(), node(x))).collect()),
            _ => None,
        },
    }
}

/// The parts of a spec's JSON document that these tests look at.
struct Doc {
    name: String,
    description: String,
    command: String,
    args: Vec<String>,
    environment: Vec<(String, String)>,
    strategy: String,
    notify: bool,
    timeout_start_sec: u64,
}

fn test_doc(name: &str) -> Doc {
    Doc {
        name: name.to_owned(),
        description: "Test service".to_owned(),
        command: "/usr/bin/test".to_owned(),
        args: vec![],
        environment: vec![],
        strategy: "on-failure".to_owned(),
        notify: false,
        timeout_start_sec: 90,
    }
}

fn to_value(d: &Doc) -> Value {
    let mut m = serde_json::Map::new();
    m.insert("name".to_owned(), Value::String(d.name.clone()));
    m.insert("description".to_owned(), Value::String(d.description.clone()));
    m.insert("command".to_owned(), Value::String(d.command.clone()));
    m.insert("args".to_owned(), Value::Array(d.args.iter().map(|a| Value::String(a.clone())).collect()));
    let mut env = serde_json::Map::new();
    for (k, v) in &d.environment {
        env.insert(k.clone(), Value::String(v.clone()));
    }
    m.insert("environment".to_owned(), Value::Object(env));
    let mut restart = serde_json::Map::new();
    restart.insert("strategy".to_owned(), Value::String(d.strategy.clone()));
    restart.insert("delay_secs".to_owned(), Value::from(5u64));
    m.insert("restart".to_owned(), Value::Object(restart));
    m.insert("notify".to_owned(), Value::Bool(d.notify));
    m.insert("timeout_start_sec".to_owned(), Value::from(d.timeout_start_sec));
    Value::Object(m)
}

fn diff(old: &Doc, new: &Doc) -> Vec<Change> {
    diff_trees(&node(&to_value(old)), &node(&to_value(new)))
}

fn path_of(c: &Change) -> &str {
    match c {
        Change::Added { path, .. } | Change::Removed { path, .. } | Change::Modified { path, .. } => path.as_str(),
    }
}

#[test]
fn no_changes() {
    let spec = test_doc("test");
    let changes = diff(&spec, &spec);
    assert!(changes.is_empty(), "identical specs should produce no diff");
}

#[test]
fn name_changed() {
    let changes = diff(&test_doc("old-name"), &test_doc("new-name"));
    let name_change = changes
        .iter()
        .find(|c| matches!(c, Change::Modified { path, .. } if path == "name"))
        .expect("should detect name change");
    match name_change {
        Change::Modified { old, new, .. } => {
            assert!(old.contains("old-name"));
            assert!(new.contains("new-name"));
        }
        _ => panic!("expected Modified"),
    }
}

#[test]
fn env_added() {
    let old = test_doc("test");
    let mut new = test_doc("test");
    new.environment.push(("NEW_VAR".to_owned(), "value".to_owned()));
    let changes = diff(&old, &new);
    let added = changes
        .iter()
        .find(|c| matches!(c, Change::Added { path, .. } if path == "environment.NEW_VAR"))
        .expect("should detect added env var");
    match added {
        Change::Added { value, .. } => assert!(value.contains("value")),
        _ => panic!("expected Added"),
    }
}

#[test]
fn env_removed() {
    let mut old = test_doc("test");
    old.environment.push(("OLD_VAR".to_owned(), "gone".to_owned()));
    let new = test_doc("test");
    let changes = diff(&old, &new);
    let removed = changes
        .iter()
        .find(|c| matches!(c, Change::Removed { path, .. } if path == "environment.OLD_VAR"))
        .expect("should detect removed env var");
    match removed {
        Change::Removed { value, .. } => assert!(value.contains("gone")),
        _ => panic!("expected Removed"),
    }
}

#[test]
fn nested_change() {
    let old = test_doc("test");
    let mut new = test_doc("test");
    new.strategy = "always".to_owned();
    let changes = diff(&old, &new);
    let strategy_change = changes
        .iter()
        .find(|c| matches!(c, Change::Modified { path, .. } if path == "restart.strategy"))
        .expect("should detect restart.strategy change");
    match strategy_change {
        Change::Modified { old, new, .. } => {
            assert!(old.contains("on-failure"));
            assert!(new.contains("always"));
        }
        _ => panic!("expected Modified"),
    }
}

#[test]
fn multiple_changes() {
    let old = test_doc("test");
    let mut new = test_doc("test");
    new.description = "Updated description".to_owned();
    new.command = "/usr/bin/updated".to_owned();
    new.notify = true;
    new.timeout_start_sec = 120;
    let changes = diff(&old, &new);
    assert!(changes.len() >= 4, "expected at least 4 changes, got {}", changes.len());
    let paths: Vec<&str> = changes.iter().map(path_of).collect();
    assert!(paths.contains(&"description"));
    assert!(paths.contains(&"command"));
    assert!(paths.contains(&"notify"));
    assert!(paths.contains(&"timeout_start_sec"));
}

#[test]
fn deterministic_ordering() {
    let old = test_doc("test");
    let mut new = test_doc("test");
    new.description = "Changed".to_owned();
    new.command = "/changed".to_owned();
    let changes1 = diff(&old, &new);
    let changes2 = diff(&old, &new);
    assert_eq!(changes1, changes2, "diff output should be deterministic");
}

#[test]
fn args_array_change() {
    let old = test_doc("test");
    let mut new = test_doc("test");
    new.args = vec!["--flag".to_owned()];
    let changes = diff(&old, &new);
    let args_change = changes
        .iter()
        .find(|c| matches!(c, Change::Modified { path, .. } if path == "args"))
        .expect("should detect args change");
    match args_change {
        Change::Modified { old, new, .. } => {
            assert!(old.contains("[]"));
            assert!(new.contains("--flag"));
        }
        _ => panic!("expected Modified"),
    }
}

#[test]
fn changes_come_sorted_by_path_with_exact_texts() {
    let mut old = test_doc("test");
    old.environment.push(("B".to_owned(), "1".to_owned()));
    let mut new = test_doc("test");
    new.environment.push(("A".to_owned(), "2".to_owned()));
    new.notify = true;
    new.command = "/x".to_owned();
    let changes = diff(&old, &new);
    assert_eq!(
        changes,
        vec![
            Change::Modified { path: "command".to_owned(), old: "\"/usr/bin/test\"".to_owned(), new: "\"/x\"".to_owned() },
            Change::Added { path: "environment.A".to_owned(), value: "\"2\"".to_owned() },
            Change::Removed { path: "environment.B".to_owned(), value: "\"1\"".to_owned() },
            Change::Modified { path: "notify".to_owned(), old: "false".to_owned(), new: "true".to_owned() },
        ]
    );
}

#[test]
fn object_replaced_by_scalar_is_one_modification() {
    let old = DiffNode {
        text: "{\"a\":1}".to_owned(),
        members: Some(vec![("a".to_owned(), DiffNode { text: "1".to_owned(), members: None })]),
    };
    let new = DiffNode { text: "3".to_owned(), members: None };
    assert_eq!(
        diff_trees(&old, &new),
        vec![Change::Modified { path: String::new(), old: "{\"a\":1}".to_owned(), new: "3".to_owned() }]
    );
}
