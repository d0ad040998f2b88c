use replica_scaler::kube::{
    base_url, check_response, configmap_path, configmaps_path, invalid_method, list_urls,
    needs_create, next_step, rbac_checks, rbac_verdict, request_headers, request_url, scale_path,
    status_line, urlencode, KubeError, Outcome, RbacVerdict, Step, MAX_RETRIES,
};

fn reply(status: u16, body: Result<&str, &str>) -> Outcome {
    Outcome::Reply { status, body: body.map(|s| s.to_string()).map_err(|e| e.to_string()) }
}

fn finished_err(step: Step) -> KubeError {
    match step {
        Step::Finish(Err(e)) => e,
        other => panic!("expected an error, got {:?}", matches!(other, Step::RetryAfter(_))),
    }
}

#[test]
fn error_messages() {
    assert_eq!(KubeError::Api("x".to_string()).message(), "Api error: x");
    assert_eq!(KubeError::NotFound("y".to_string()).message(), "Not found: y");
    assert_eq!(
        KubeError::InvalidMethod("z".to_string()).message(),
        "Invalid HTTP method: z"
    );
    assert!(KubeError::NotFound(String::new()).is_not_found());
    assert!(!KubeError::Api(String::new()).is_not_found());
}

#[test]
fn base_url_outside_cluster() {
    assert_eq!(base_url("", None), "http://localhost:8080");
    assert_eq!(base_url("", Some("9000".to_string())), "http://localhost:9000");
}

#[test]
fn base_url_inside_cluster() {
    assert_eq!(base_url("10.0.0.1", None), "https://10.0.0.1:443");
    assert_eq!(base_url("fd00::1", None), "https://[fd00::1]:443");
    assert_eq!(base_url("kube", Some("6443".to_string())), "https://kube:6443");
    assert_eq!(request_url("https://kube:443", "/api/v1/pods"), "https://kube:443/api/v1/pods");
}

#[test]
fn urlencode_keeps_unreserved_and_escapes_the_rest() {
    assert_eq!(
        urlencode("replica-scaler.webui.io/managed=true"),
        "replica-scaler.webui.io%2Fmanaged=true"
    );
    assert_eq!(urlencode("a b,c!(~)_"), "a%20b%2Cc!(~)_");
    assert_eq!(urlencode("é"), "%C3%A9");
    assert_eq!(urlencode(""), "");
}

#[test]
fn list_urls_for_all_namespaces() {
    let urls = list_urls("deployments", &vec![], "k=v");
    assert_eq!(urls, vec!["/apis/apps/v1/deployments?labelSelector=k=v".to_string()]);
    let urls = list_urls("statefulsets", &vec![], "");
    assert_eq!(urls, vec!["/apis/apps/v1/statefulsets".to_string()]);
}

#[test]
fn list_urls_per_namespace() {
    let urls = list_urls("deployments", &vec!["a".to_string(), "b".to_string()], "x/y=1");
    assert_eq!(
        urls,
        vec![
            "/apis/apps/v1/namespaces/a/deployments?labelSelector=x%2Fy=1".to_string(),
            "/apis/apps/v1/namespaces/b/deployments?labelSelector=x%2Fy=1".to_string(),
        ]
    );
}

#[test]
fn paths() {
    assert_eq!(
        scale_path("gpu", "vllm", "Deployment"),
        "/apis/apps/v1/namespaces/gpu/deployments/vllm/scale"
    );
    assert_eq!(
        scale_path("gpu", "db", "StatefulSet"),
        "/apis/apps/v1/namespaces/gpu/statefulsets/db/scale"
    );
    assert_eq!(
        scale_path("gpu", "x", "Something"),
        "/apis/apps/v1/namespaces/gpu/deployments/x/scale"
    );
    assert_eq!(configmap_path("ns", "cm"), "/api/v1/namespaces/ns/configmaps/cm");
    assert_eq!(configmaps_path("ns"), "/api/v1/namespaces/ns/configmaps");
}

#[test]
fn headers() {
    let h = request_headers("PATCH", &Some("tok".to_string()), true);
    assert_eq!(
        h,
        vec![
            ("Authorization".to_string(), "Bearer tok".to_string()),
            ("Content-Type".to_string(), "application/merge-patch+json".to_string()),
        ]
    );
    let h = request_headers("POST", &None, true);
    assert_eq!(h, vec![("Content-Type".to_string(), "application/json".to_string())]);
    let h = request_headers("GET", &None, false);
    assert!(h.is_empty());
    match invalid_method("BAD METHOD") {
        KubeError::InvalidMethod(m) => assert_eq!(m, "Invalid HTTP method: BAD METHOD"),
        _ => panic!("wrong variant"),
    }
}

#[test]
fn success_returns_body() {
    match next_step(0, "/p", reply(200, Ok("{}"))) {
        Step::Finish(Ok(t)) => assert_eq!(t, "{}"),
        _ => panic!("expected the body"),
    }
    match finished_err(next_step(0, "/p", reply(200, Err("broken body")))) {
        KubeError::Api(m) => assert_eq!(m, "broken body"),
        _ => panic!("wrong variant"),
    }
}

#[test]
fn not_found_is_final() {
    for attempt in 0..MAX_RETRIES {
        match finished_err(next_step(attempt, "/p", reply(404, Ok("")))) {
            KubeError::NotFound(m) => assert_eq!(m, "Resource not found at /p"),
            _ => panic!("wrong variant"),
        }
    }
}

#[test]
fn rate_limit_is_retried_then_fails() {
    assert!(matches!(next_step(0, "/p", reply(429, Ok(""))), Step::RetryAfter(1)));
    assert!(matches!(next_step(1, "/p", reply(429, Ok(""))), Step::RetryAfter(2)));
    match finished_err(next_step(2, "/p", reply(429, Ok("")))) {
        KubeError::Api(m) => assert_eq!(m, "Rate limited on /p after 3 retries"),
        _ => panic!("wrong variant"),
    }
}

#[test]
fn client_error_is_final() {
    match finished_err(next_step(0, "/p", reply(403, Ok("denied")))) {
        KubeError::Api(m) => assert_eq!(m, "Client error 403 Forbidden on /p: denied"),
        _ => panic!("wrong variant"),
    }
    match finished_err(next_step(1, "/p", reply(400, Err("x")))) {
        KubeError::Api(m) => assert_eq!(m, "Client error 400 Bad Request on /p: "),
        _ => panic!("wrong variant"),
    }
}

#[test]
fn server_error_is_retried_then_fails() {
    assert!(matches!(
        next_step(0, "/p", reply(503, Ok("busy"))),
        Step::RetryAfter(1)
    ));
    assert!(matches!(
        next_step(1, "/p", reply(500, Ok(""))),
        Step::RetryAfter(2)
    ));
    match finished_err(next_step(2, "/p", reply(500, Ok("boom")))) {
        KubeError::Api(m) => assert_eq!(m, "Server error 500 Internal Server Error on /p: boom"),
        _ => panic!("wrong variant"),
    }
}

#[test]
fn transport_failure_is_retried_then_fails() {
    let fail = || Outcome::Failed(KubeError::Api("connection refused".to_string()));
    assert!(matches!(next_step(0, "/p", fail()), Step::RetryAfter(1)));
    assert!(matches!(next_step(1, "/p", fail()), Step::RetryAfter(2)));
    match finished_err(next_step(2, "/p", fail())) {
        KubeError::Api(m) => assert_eq!(
            m,
            "Request failed after 3 retries for /p: Api error: connection refused"
        ),
        _ => panic!("wrong variant"),
    }
    let bad = Outcome::Failed(KubeError::InvalidMethod("Invalid HTTP method: X Y".to_string()));
    match finished_err(next_step(2, "/p", bad)) {
        KubeError::Api(m) => assert_eq!(
            m,
            "Request failed after 3 retries for /p: Invalid HTTP method: Invalid HTTP method: X Y"
        ),
        _ => panic!("wrong variant"),
    }
}

#[test]
fn last_attempt_always_finishes() {
    let last = MAX_RETRIES - 1;
    for status in [200u16, 404, 429, 400, 500, 599, 302] {
        assert!(matches!(next_step(last, "/p", reply(status, Ok(""))), Step::Finish(_)));
    }
    assert!(matches!(
        next_step(last, "/p", Outcome::Failed(KubeError::Api(String::new()))),
        Step::Finish(_)
    ));
}

#[test]
fn rbac_probe_list() {
    let c = rbac_checks("ns", "cm", &vec![]);
    assert_eq!(c.len(), 5);
    assert_eq!(c[0], ("list Deployments".to_string(), "/apis/apps/v1/deployments".to_string()));
    assert_eq!(
        c[4],
        ("state ConfigMap".to_string(), "/api/v1/namespaces/ns/configmaps/cm".to_string())
    );
    let c = rbac_checks("ns", "cm", &vec!["gpu".to_string(), "ml".to_string()]);
    assert_eq!(c.len(), 6);
    assert_eq!(
        c[5],
        (
            "list Deployments in namespace".to_string(),
            "/apis/apps/v1/namespaces/gpu/deployments".to_string()
        )
    );
}

#[test]
fn rbac_verdicts() {
    assert_eq!(rbac_verdict(&Ok("x".to_string())), RbacVerdict::Granted);
    assert_eq!(
        rbac_verdict(&Err(KubeError::Api("Client error 403 Forbidden on /p: no".to_string()))),
        RbacVerdict::Missing
    );
    assert_eq!(
        rbac_verdict(&Err(KubeError::Api("Server error 500".to_string()))),
        RbacVerdict::Skipped
    );
    assert_eq!(
        rbac_verdict(&Err(KubeError::NotFound("gone".to_string()))),
        RbacVerdict::NotFound
    );
    assert_eq!(
        rbac_verdict(&Err(KubeError::InvalidMethod("m".to_string()))),
        RbacVerdict::Skipped
    );
}

#[test]
fn status_lines_follow_http() {
    assert_eq!(status_line(200), "200 OK");
    assert_eq!(status_line(403), "403 Forbidden");
    assert_eq!(status_line(503), "503 Service Unavailable");
    assert_eq!(status_line(599), "599 <unknown status code>");
}

#[test]
fn forbidden_reply_is_a_missing_permission() {
    for attempt in 0..MAX_RETRIES {
        let step = next_step(attempt, "/apis/apps/v1/deployments", reply(403, Ok("no")));
        match step {
            Step::Finish(r) => assert_eq!(rbac_verdict(&r), RbacVerdict::Missing),
            Step::RetryAfter(_) => panic!("403 must not be retried"),
        }
    }
}

#[test]
fn responses_must_be_json() {
    assert!(check_response("{\"kind\": \"Scale\"}").is_ok());
    assert!(check_response("[]").is_ok());
    match check_response("<html>") {
        Err(KubeError::Api(m)) => assert!(!m.is_empty()),
        _ => panic!("expected an API error"),
    }
}

#[test]
fn configmap_is_created_only_when_missing() {
    assert!(needs_create::<String>(&Err(KubeError::NotFound("x".to_string()))));
    assert!(!needs_create::<String>(&Err(KubeError::Api("x".to_string()))));
    assert!(!needs_create(&Ok("{}".to_string())));
}

#[test]
fn urlencode_bounds_and_decoding() {
    for s in ["", "abc", "a/b c", "é€", "k=v!()~._-"] {
        let e = urlencode(s);
        assert!(s.len() <= e.len() && e.len() <= 3 * s.len());
        let mut bytes = Vec::new();
        let eb = e.as_bytes();
        let mut i = 0;
        while i < eb.len() {
            if eb[i] == b'%' {
                bytes.push(u8::from_str_radix(&e[i + 1..i + 3], 16).unwrap());
                i += 3;
            } else {
                bytes.push(eb[i]);
                i += 1;
            }
        }
        assert_eq!(bytes, s.as_bytes());
    }
    assert_eq!(urlencode("k=v!()~._-"), "k=v!()~._-");
}
