use replica_scaler::config::Config;
use replica_scaler::discovery::{
    compute_state, default_state, discovered_targets, discovery_plan, label_value, matches_selector,
    sort_targets, target_before, target_from, Workload,
};
use replica_scaler::models::Target;

fn cfg() -> Config {
    Config::from_values(None, None, None, None, None, None, None, None)
}

fn workload(name: &str, ns: &str, labels: &[(&str, Option<&str>)]) -> Workload {
    Workload {
        name: Some(name.to_string()),
        namespace: Some(ns.to_string()),
        labels: Some(
            labels
                .iter()
                .map(|(k, v)| (k.to_string(), v.map(|s| s.to_string())))
                .collect(),
        ),
        replicas: Some(1),
        ready_replicas: Some(1),
        available_replicas: Some(1),
    }
}

fn target(kind: &str, ns: &str, name: &str, reason: &str) -> Target {
    Target {
        kind: kind.to_string(),
        name: name.to_string(),
        namespace: ns.to_string(),
        replicas: None,
        ready_replicas: None,
        available_replicas: None,
        desired_replicas: None,
        default_replicas: None,
        selected: true,
        match_reason: reason.to_string(),
        state: "stopped".to_string(),
    }
}

#[test]
fn selector_matches_only_the_exact_label() {
    let w = workload("a", "gpu", &[("replica-scaler.webui.io/managed", Some("true"))]);
    assert_eq!(
        matches_selector(&w, "replica-scaler.webui.io/managed", "true"),
        (true, "label replica-scaler.webui.io/managed=true".to_string())
    );
    assert_eq!(
        matches_selector(&w, "replica-scaler.webui.io/managed", "false"),
        (false, String::new())
    );
    let w = workload("a", "gpu", &[("replica-scaler.webui.io/managed", None)]);
    assert_eq!(matches_selector(&w, "replica-scaler.webui.io/managed", "true"), (false, String::new()));
    let mut w = workload("a", "gpu", &[]);
    w.labels = None;
    assert_eq!(matches_selector(&w, "k", "v"), (false, String::new()));
}

#[test]
fn label_value_finds_the_key() {
    let w = workload("a", "gpu", &[("x", Some("1")), ("y", Some("2"))]);
    assert_eq!(label_value(&w, "y"), Some("2".to_string()));
    assert_eq!(label_value(&w, "z"), None);
}

#[test]
fn default_state_from_label() {
    let key = "replica-scaler.webui.io/default-state";
    assert_eq!(default_state(&workload("a", "n", &[(key, Some("active"))]), key), Some(1));
    assert_eq!(default_state(&workload("a", "n", &[(key, Some("Inactive"))]), key), Some(0));
    assert_eq!(default_state(&workload("a", "n", &[(key, Some("1"))]), key), Some(1));
    assert_eq!(default_state(&workload("a", "n", &[(key, Some("later"))]), key), None);
    assert_eq!(default_state(&workload("a", "n", &[]), key), None);
}

#[test]
fn states() {
    assert_eq!(compute_state(None, None), "stopped");
    assert_eq!(compute_state(Some(0), Some(3)), "stopped");
    assert_eq!(compute_state(Some(1), Some(1)), "running");
    assert_eq!(compute_state(Some(2), Some(3)), "running");
    assert_eq!(compute_state(Some(1), None), "pending");
    assert_eq!(compute_state(Some(2), Some(1)), "pending");
}

#[test]
fn target_from_a_labelled_workload() {
    let mut w = workload(
        "vllm",
        "gpu",
        &[
            ("replica-scaler.webui.io/managed", Some("true")),
            ("replica-scaler.webui.io/default-state", Some("active")),
        ],
    );
    w.replicas = Some(0);
    w.ready_replicas = None;
    let t = target_from("Deployment", &w, &cfg()).expect("a target");
    assert_eq!(t.kind, "Deployment");
    assert_eq!(t.name, "vllm");
    assert_eq!(t.namespace, "gpu");
    assert_eq!(t.replicas, Some(0));
    assert_eq!(t.desired_replicas, None);
    assert_eq!(t.default_replicas, Some(1));
    assert!(t.selected);
    assert_eq!(t.match_reason, "label replica-scaler.webui.io/managed=true");
    assert_eq!(t.state, "stopped");
}

#[test]
fn target_default_falls_back_to_global_default() {
    let w = workload("x", "gpu", &[("replica-scaler.webui.io/default-state", Some("bogus"))]);
    let t = target_from("StatefulSet", &w, &cfg()).expect("a target");
    assert_eq!(t.default_replicas, Some(0));
    let active = Config::from_values(None, None, None, None, Some("active".to_string()), None, None, None);
    let t = target_from("StatefulSet", &w, &active).expect("a target");
    assert_eq!(t.default_replicas, Some(1));
    assert!(!t.selected);
}

#[test]
fn workload_without_name_or_namespace_is_skipped() {
    let mut w = workload("x", "gpu", &[]);
    w.name = None;
    assert!(target_from("Deployment", &w, &cfg()).is_none());
    let mut w = workload("x", "gpu", &[]);
    w.namespace = None;
    assert!(target_from("Deployment", &w, &cfg()).is_none());
}

#[test]
fn order_is_namespace_kind_name() {
    assert!(target_before(&target("StatefulSet", "a", "z", ""), &target("Deployment", "b", "a", "")));
    assert!(target_before(&target("Deployment", "a", "z", ""), &target("StatefulSet", "a", "a", "")));
    assert!(target_before(&target("Deployment", "a", "a", ""), &target("Deployment", "a", "b", "")));
    assert!(!target_before(&target("Deployment", "a", "b", ""), &target("Deployment", "a", "b", "")));
    assert!(target_before(&target("Deployment", "a", "ab", ""), &target("Deployment", "a", "b", "")));
    assert!(target_before(&target("Deployment", "a", "a", ""), &target("Deployment", "a", "aa", "")));
}

#[test]
fn sort_is_stable_and_ordered() {
    let input = vec![
        target("StatefulSet", "b", "db", "1"),
        target("Deployment", "b", "web", "2"),
        target("Deployment", "a", "x", "3"),
        target("Deployment", "b", "web", "4"),
        target("Deployment", "a", "x", "5"),
    ];
    let out = sort_targets(input);
    let got: Vec<(String, String, String, String)> = out
        .iter()
        .map(|t| (t.namespace.clone(), t.kind.clone(), t.name.clone(), t.match_reason.clone()))
        .collect();
    let want: Vec<(String, String, String, String)> = [
        ("a", "Deployment", "x", "3"),
        ("a", "Deployment", "x", "5"),
        ("b", "Deployment", "web", "2"),
        ("b", "Deployment", "web", "4"),
        ("b", "StatefulSet", "db", "1"),
    ]
    .iter()
    .map(|(a, b, c, d)| (a.to_string(), b.to_string(), c.to_string(), d.to_string()))
    .collect();
    assert_eq!(got, want);
    assert!(sort_targets(vec![]).is_empty());
}

#[test]
fn plan_lists_deployments_then_statefulsets() {
    let plan = discovery_plan(&cfg());
    assert_eq!(
        plan,
        vec![
            (
                "Deployment".to_string(),
                "/apis/apps/v1/deployments?labelSelector=replica-scaler.webui.io%2Fmanaged=true"
                    .to_string()
            ),
            (
                "StatefulSet".to_string(),
                "/apis/apps/v1/statefulsets?labelSelector=replica-scaler.webui.io%2Fmanaged=true"
                    .to_string()
            ),
        ]
    );
    let c = Config::from_values(Some("a,b".to_string()), Some("k".to_string()), Some("v".to_string()), None, None, None, None, None);
    let plan = discovery_plan(&c);
    assert_eq!(plan.len(), 4);
    assert_eq!(plan[1], ("Deployment".to_string(), "/apis/apps/v1/namespaces/b/deployments?labelSelector=k=v".to_string()));
    assert_eq!(plan[2], ("StatefulSet".to_string(), "/apis/apps/v1/namespaces/a/statefulsets?labelSelector=k=v".to_string()));
}

#[test]
fn discovery_builds_and_sorts_all_listings() {
    let mut nameless = workload("x", "gpu", &[]);
    nameless.name = None;
    let listings = vec![
        ("Deployment".to_string(), vec![workload("web", "b", &[]), nameless]),
        ("StatefulSet".to_string(), vec![workload("db", "a", &[])]),
    ];
    let out = discovered_targets(listings, &cfg());
    assert_eq!(out.len(), 2);
    assert_eq!((out[0].namespace.as_str(), out[0].kind.as_str(), out[0].name.as_str()), ("a", "StatefulSet", "db"));
    assert_eq!((out[1].namespace.as_str(), out[1].kind.as_str(), out[1].name.as_str()), ("b", "Deployment", "web"));
    assert_eq!(out[0].state, "running");
}

#[test]
fn listing_reads_items() {
    let body = r#"{"kind":"DeploymentList","items":[
        {"metadata":{"name":"vllm","namespace":"gpu","labels":{"replica-scaler.webui.io/managed":"true","n":3}},
         "spec":{"replicas":0},"status":{"readyReplicas":2,"availableReplicas":1,"replicas":9}},
        {"metadata":{"name":7}}
    ]}"#;
    let items = replica_scaler::discovery::listing_workloads(body).expect("json").expect("items");
    assert_eq!(items.len(), 2);
    assert_eq!(items[0].name.as_deref(), Some("vllm"));
    assert_eq!(items[0].namespace.as_deref(), Some("gpu"));
    assert_eq!(items[0].replicas, Some(0));
    assert_eq!(items[0].ready_replicas, Some(2));
    assert_eq!(items[0].available_replicas, Some(1));
    let labels = items[0].labels.clone().expect("labels");
    assert!(labels.contains(&("replica-scaler.webui.io/managed".to_string(), Some("true".to_string()))));
    assert!(labels.contains(&("n".to_string(), None)));
    assert_eq!(items[1].name, None);
    assert_eq!(items[1].namespace, None);
    assert_eq!(items[1].labels, None);
    assert_eq!(items[1].replicas, None);
}

#[test]
fn listing_without_items_or_json() {
    assert!(replica_scaler::discovery::listing_workloads(r#"{"kind":"Status"}"#).expect("json").is_none());
    match replica_scaler::discovery::listing_workloads("not json") {
        Err(replica_scaler::kube::KubeError::Api(m)) => assert!(!m.is_empty()),
        _ => panic!("expected an API error"),
    }
}
