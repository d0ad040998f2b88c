use replica_scaler::models::Target;
use replica_scaler::state::{clamp_replicas, parse_key, stored_document_of, LoadOutcome, ScaleAction, StateStore, DATA_KEY};

fn store() -> StateStore {
    StateStore::new("replica-scaler-state".to_string(), "gpu".to_string())
}

fn target(kind: &str, ns: &str, name: &str, default: Option<i64>) -> Target {
    Target {
        kind: kind.to_string(),
        name: name.to_string(),
        namespace: ns.to_string(),
        replicas: None,
        ready_replicas: None,
        available_replicas: None,
        desired_replicas: None,
        default_replicas: default,
        selected: true,
        match_reason: String::new(),
        state: "stopped".to_string(),
    }
}

fn action(a: &ScaleAction) -> (String, String, String, u8) {
    (a.kind.clone(), a.namespace.clone(), a.name.clone(), a.replicas)
}

#[test]
fn keys() {
    assert_eq!(StateStore::key("Deployment", "gpu", "vllm"), "deployment/gpu/vllm");
    assert_eq!(StateStore::key("StatefulSet", "gpu", "db"), "statefulset/gpu/db");
    assert_eq!(StateStore::key("Other", "gpu", "x"), "deployment/gpu/x");
    assert_eq!(DATA_KEY, "desired.json");
}

#[test]
fn keys_read_back() {
    assert_eq!(
        parse_key("statefulset/gpu/db"),
        Some(("StatefulSet".to_string(), "gpu".to_string(), "db".to_string()))
    );
    assert_eq!(
        parse_key("deployment/gpu/a/b"),
        Some(("Deployment".to_string(), "gpu".to_string(), "a/b".to_string()))
    );
    assert_eq!(
        parse_key("whatever/ns/"),
        Some(("Deployment".to_string(), "ns".to_string(), String::new()))
    );
    assert_eq!(parse_key("deployment/gpu"), None);
    assert_eq!(parse_key("nothing"), None);
}

#[test]
fn key_round_trip() {
    for (kind, norm) in [("Deployment", "Deployment"), ("StatefulSet", "StatefulSet"), ("Job", "Deployment")] {
        let k = StateStore::key(kind, "gpu", "a/b");
        assert_eq!(
            parse_key(&k),
            Some((norm.to_string(), "gpu".to_string(), "a/b".to_string()))
        );
    }
}

#[test]
fn read_after_write() {
    let mut s = store();
    assert_eq!(s.get("deployment/gpu/a"), None);
    s.set("deployment/gpu/a", 1);
    s.set("deployment/gpu/b", 0);
    assert_eq!(s.get("deployment/gpu/a"), Some(1));
    s.set("deployment/gpu/a", 0);
    assert_eq!(s.get("deployment/gpu/a"), Some(0));
    assert_eq!(s.get("deployment/gpu/b"), Some(0));
    assert_eq!(s.len(), 2);
    assert_eq!(s.configmap(), "replica-scaler-state");
    assert_eq!(s.namespace(), "gpu");
}

#[test]
fn load_reads_integer_entries() {
    let mut s = store();
    let r = s.load_document(r#"{"deployment/gpu/a": 1, "statefulset/gpu/b": 0, "deployment/gpu/c": "x", "deployment/gpu/d": 1.5}"#);
    assert_eq!(r, LoadOutcome::Loaded(2));
    assert_eq!(s.get("deployment/gpu/a"), Some(1));
    assert_eq!(s.get("statefulset/gpu/b"), Some(0));
    assert_eq!(s.get("deployment/gpu/c"), None);
    assert_eq!(s.get("deployment/gpu/d"), None);
}

#[test]
fn load_of_unreadable_text_changes_nothing() {
    let mut s = store();
    s.set("deployment/gpu/a", 1);
    assert_eq!(s.load_document("{not json"), LoadOutcome::Unreadable);
    assert_eq!(s.get("deployment/gpu/a"), Some(1));
    assert_eq!(s.len(), 1);
}

#[test]
fn load_of_a_non_object_adds_nothing() {
    let mut s = store();
    assert_eq!(s.load_document("[1, 2]"), LoadOutcome::Loaded(0));
    assert_eq!(s.len(), 0);
}

#[test]
fn document_round_trip() {
    let mut s = store();
    s.set("deployment/gpu/a", 1);
    s.set("statefulset/gpu/\"quoted\"", 0);
    s.set("deployment/gpu/big", -7);
    let text = s.document();
    let parsed: serde_json::Value = serde_json::from_str(&text).expect("json");
    assert_eq!(parsed["deployment/gpu/a"], serde_json::Value::from(1));
    let mut t = store();
    assert_eq!(t.load_document(&text), LoadOutcome::Loaded(3));
    assert_eq!(t.get("deployment/gpu/a"), Some(1));
    assert_eq!(t.get("statefulset/gpu/\"quoted\""), Some(0));
    assert_eq!(t.get("deployment/gpu/big"), Some(-7));
    assert_eq!(store().document(), "{}");
}

#[test]
fn desired_actions_are_clamped() {
    let mut s = store();
    s.set("deployment/gpu/a", 5);
    s.set("statefulset/gpu/b", -1);
    s.set("broken", 1);
    let acts: Vec<_> = s.desired_actions().iter().map(action).collect();
    assert_eq!(
        acts,
        vec![
            ("Deployment".to_string(), "gpu".to_string(), "a".to_string(), 1),
            ("StatefulSet".to_string(), "gpu".to_string(), "b".to_string(), 0),
        ]
    );
}

#[test]
fn defaults_apply_only_without_stored_state() {
    let mut s = store();
    let targets = vec![
        target("Deployment", "gpu", "a", Some(1)),
        target("StatefulSet", "gpu", "b", Some(0)),
        target("Deployment", "gpu", "c", None),
    ];
    let acts: Vec<_> = s.pending_defaults(&targets).iter().map(action).collect();
    assert_eq!(
        acts,
        vec![
            ("Deployment".to_string(), "gpu".to_string(), "a".to_string(), 1),
            ("StatefulSet".to_string(), "gpu".to_string(), "b".to_string(), 0),
        ]
    );
    // Once the default is applied and stored, it is not applied again.
    s.set(&StateStore::key("Deployment", "gpu", "a"), 1);
    let acts: Vec<_> = s.pending_defaults(&targets).iter().map(action).collect();
    assert_eq!(acts, vec![("StatefulSet".to_string(), "gpu".to_string(), "b".to_string(), 0)]);
}

#[test]
fn clamp() {
    assert_eq!(clamp_replicas(-3), 0);
    assert_eq!(clamp_replicas(0), 0);
    assert_eq!(clamp_replicas(1), 1);
    assert_eq!(clamp_replicas(42), 1);
}

#[test]
fn document_of_a_configmap() {
    let cm = r#"{"metadata":{"name":"replica-scaler-state"},"data":{"desired.json":"{\"deployment/gpu/a\":1}"}}"#;
    let doc = stored_document_of(cm).expect("json").expect("document");
    assert_eq!(doc, r#"{"deployment/gpu/a":1}"#);
    let mut s = store();
    assert_eq!(s.load_document(&doc), LoadOutcome::Loaded(1));
    assert_eq!(s.get("deployment/gpu/a"), Some(1));
    assert!(stored_document_of(r#"{"data":{}}"#).expect("json").is_none());
    assert!(stored_document_of(r#"{"data":{"desired.json":5}}"#).expect("json").is_none());
    assert!(stored_document_of("{").is_err());
}
