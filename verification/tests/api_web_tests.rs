use replica_scaler::api::{after_scale, fill_desired, find_target, requested_replicas, scale_failure, scaled_target};
use replica_scaler::kube::KubeError;
use replica_scaler::models::{ScaleRequest, Target};
use replica_scaler::state::StateStore;
use replica_scaler::web::{static_route, StaticRoute};

fn target(kind: &str, ns: &str, name: &str, state: &str) -> Target {
    Target {
        kind: kind.to_string(),
        name: name.to_string(),
        namespace: ns.to_string(),
        replicas: Some(0),
        ready_replicas: None,
        available_replicas: None,
        desired_replicas: None,
        default_replicas: Some(0),
        selected: true,
        match_reason: String::new(),
        state: state.to_string(),
    }
}

#[test]
fn scale_requests_are_clamped() {
    assert_eq!(requested_replicas(ScaleRequest { replicas: 0 }), 0);
    assert_eq!(requested_replicas(ScaleRequest { replicas: 1 }), 1);
    assert_eq!(requested_replicas(ScaleRequest { replicas: 7 }), 1);
    assert_eq!(requested_replicas(ScaleRequest { replicas: 255 }), 1);
}

#[test]
fn find_target_by_namespace_and_name() {
    let ts = vec![
        target("Deployment", "a", "x", "first"),
        target("StatefulSet", "b", "x", "second"),
        target("Deployment", "b", "x", "third"),
    ];
    let t = find_target(ts.clone(), "b", "x").expect("found");
    assert_eq!(t.state, "second");
    let e = find_target(ts, "c", "x").unwrap_err();
    assert_eq!(e.error, "Workload c/x not found (or not managed by this scaler)");
}

#[test]
fn scale_failure_message() {
    let e = scale_failure("Deployment", "gpu", "vllm", &KubeError::Api("Client error 403".to_string()));
    assert_eq!(e.error, "Failed to scale Deployment gpu/vllm: Api error: Client error 403");
    let e = scale_failure("StatefulSet", "gpu", "db", &KubeError::NotFound("Resource not found at /p".to_string()));
    assert_eq!(e.error, "Failed to scale StatefulSet gpu/db: Not found: Resource not found at /p");
}

#[test]
fn list_fills_stored_desired_state() {
    let mut s = StateStore::new("cm".to_string(), "ns".to_string());
    s.set("statefulset/gpu/db", 1);
    let out = fill_desired(
        vec![target("Deployment", "gpu", "db", "a"), target("StatefulSet", "gpu", "db", "b")],
        &s,
    );
    assert_eq!(out[0].desired_replicas, None);
    assert_eq!(out[1].desired_replicas, Some(1));
    assert_eq!(out[1].state, "b");
}

#[test]
fn scaled_target_prefers_the_fresh_listing() {
    let before = target("Deployment", "gpu", "x", "before");
    let fresh = vec![target("Deployment", "gpu", "x", "after")];
    let t = scaled_target(fresh, "gpu", "x", before.clone(), 1);
    assert_eq!(t.state, "after");
    assert_eq!(t.desired_replicas, Some(1));
    let t = scaled_target(vec![], "gpu", "x", before, 0);
    assert_eq!(t.state, "before");
    assert_eq!(t.desired_replicas, Some(0));
}

fn file(route: StaticRoute) -> (String, String) {
    match route {
        StaticRoute::File { path, mime } => (path, mime),
        StaticRoute::Index => panic!("expected a file"),
    }
}

#[test]
fn static_files() {
    assert_eq!(
        file(static_route("/assets/app.js")),
        ("public/assets/app.js".to_string(), "application/javascript".to_string())
    );
    assert_eq!(
        file(static_route("//index.html")),
        ("public/index.html".to_string(), "text/html".to_string())
    );
    assert_eq!(
        file(static_route("/style.css")),
        ("public/style.css".to_string(), "text/css".to_string())
    );
    assert_eq!(
        file(static_route("/pkg/app.wasm")),
        ("public/pkg/app.wasm".to_string(), "application/wasm".to_string())
    );
    assert_eq!(
        file(static_route("/favicon")),
        ("public/favicon".to_string(), "application/octet-stream".to_string())
    );
    assert_eq!(
        file(static_route("/a.b/c")),
        ("public/a.b/c".to_string(), "application/octet-stream".to_string())
    );
}

#[test]
fn static_fallbacks_to_index() {
    assert!(matches!(static_route("/"), StaticRoute::Index));
    assert!(matches!(static_route(""), StaticRoute::Index));
    assert!(matches!(static_route("///"), StaticRoute::Index));
    assert!(matches!(static_route("/../secret"), StaticRoute::Index));
    assert!(matches!(static_route("/a..b.js"), StaticRoute::Index));
}

#[test]
fn after_scale_persists_only_on_success() {
    let ok: Result<String, KubeError> = Ok("{}".to_string());
    let (key, r) = after_scale(&ok, "StatefulSet", "gpu", "db", 1).expect("persist");
    assert_eq!(key, "statefulset/gpu/db");
    assert_eq!(r, 1);
    let failed: Result<String, KubeError> = Err(KubeError::Api("Client error 403 Forbidden on /p: no".to_string()));
    let e = after_scale(&failed, "Deployment", "gpu", "x", 0).unwrap_err();
    assert_eq!(e.error, "Failed to scale Deployment gpu/x: Api error: Client error 403 Forbidden on /p: no");
}
