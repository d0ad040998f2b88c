use replica_scaler::config::{parse_namespaces, parse_state, Config};

#[test]
fn parse_state_accepts_active_words() {
    assert_eq!(parse_state("active"), Some(1));
    assert_eq!(parse_state("1"), Some(1));
    assert_eq!(parse_state("true"), Some(1));
    assert_eq!(parse_state("on"), Some(1));
}

#[test]
fn parse_state_accepts_inactive_words() {
    assert_eq!(parse_state("inactive"), Some(0));
    assert_eq!(parse_state("0"), Some(0));
    assert_eq!(parse_state("false"), Some(0));
    assert_eq!(parse_state("off"), Some(0));
}

#[test]
fn parse_state_ignores_case_and_surrounding_space() {
    assert_eq!(parse_state("  Active\n"), Some(1));
    assert_eq!(parse_state("\tINACTIVE "), Some(0));
    assert_eq!(parse_state("\u{3000}On\u{a0}"), Some(1));
}

#[test]
fn parse_state_rejects_other_words() {
    assert_eq!(parse_state(""), None);
    assert_eq!(parse_state("yes"), None);
    assert_eq!(parse_state("act ive"), None);
    assert_eq!(parse_state("2"), None);
    // Only ASCII letters are lower-cased.
    assert_eq!(parse_state("\u{130}nactive"), None);
}

#[test]
fn namespaces_are_split_trimmed_and_filtered() {
    assert_eq!(parse_namespaces("gpu"), vec!["gpu".to_string()]);
    assert_eq!(
        parse_namespaces(" gpu , ml,,  ,batch "),
        vec!["gpu".to_string(), "ml".to_string(), "batch".to_string()]
    );
    assert_eq!(parse_namespaces(",,"), Vec::<String>::new());
}

#[test]
fn config_defaults_when_nothing_is_set() {
    let cfg = Config::from_values(None, None, None, None, None, None, None, None);
    assert!(cfg.namespaces.is_empty());
    assert_eq!(cfg.selector_key, "replica-scaler.webui.io/managed");
    assert_eq!(cfg.selector_value, "true");
    assert_eq!(cfg.default_state_label, "replica-scaler.webui.io/default-state");
    assert_eq!(cfg.default_state, 0);
    assert_eq!(cfg.state_configmap, "replica-scaler-state");
    assert_eq!(cfg.state_namespace, "default");
}

#[test]
fn config_takes_the_given_values() {
    let cfg = Config::from_values(
        Some("gpu, ml".to_string()),
        Some("k".to_string()),
        Some("v".to_string()),
        Some("d".to_string()),
        Some(" Active ".to_string()),
        Some("cm".to_string()),
        Some("state-ns".to_string()),
        Some("pod-ns".to_string()),
    );
    assert_eq!(cfg.namespaces, vec!["gpu".to_string(), "ml".to_string()]);
    assert_eq!(cfg.selector_key, "k");
    assert_eq!(cfg.selector_value, "v");
    assert_eq!(cfg.default_state_label, "d");
    assert_eq!(cfg.default_state, 1);
    assert_eq!(cfg.state_configmap, "cm");
    assert_eq!(cfg.state_namespace, "state-ns");
}

#[test]
fn config_blank_namespaces_mean_all() {
    let cfg = Config::from_values(Some("   ".to_string()), None, None, None, None, None, None, None);
    assert!(cfg.namespaces.is_empty());
}

#[test]
fn config_unknown_default_state_is_inactive() {
    let cfg = Config::from_values(None, None, None, None, Some("maybe".to_string()), None, None, None);
    assert_eq!(cfg.default_state, 0);
}

#[test]
fn config_state_namespace_falls_back_to_pod_namespace() {
    let cfg = Config::from_values(
        None,
        None,
        None,
        None,
        None,
        None,
        Some(String::new()),
        Some("gpu\n".to_string()),
    );
    assert_eq!(cfg.state_namespace, "gpu");
}
