use qpackt::config::{ensure_app_dir_exists, if_empty_then, parse_config, QpacktConfig};

#[test]
fn config_round_trips() {
    // read(write(c)) = c.
    let c = QpacktConfig::from_parts(
        "example.org".to_string(),
        "0.0.0.0:8080".to_string(),
        Some("0.0.0.0:8443".to_string()),
        "$scrypt$ln=17,r=8,p=1$c2FsdA$aGFzaA".to_string(),
        "/var/run/qpackt".to_string(),
    );
    let text = c.to_config_text();
    let back = parse_config(&text).unwrap();
    assert_eq!(back.domain(), "example.org");
    assert_eq!(back.http_proxy_addr(), "0.0.0.0:8080");
    assert_eq!(back.https_proxy_addr().map(|s| s.as_str()), Some("0.0.0.0:8443"));
    assert_eq!(back.password(), "$scrypt$ln=17,r=8,p=1$c2FsdA$aGFzaA");
    assert_eq!(back.app_run_directory(), "/var/run/qpackt");
}

#[test]
fn config_without_https_round_trips() {
    let c = QpacktConfig::from_parts(
        "example.org".to_string(),
        "0.0.0.0:8080".to_string(),
        None,
        "hash".to_string(),
        "/var/run/qpackt".to_string(),
    );
    let text = c.to_config_text();
    assert_eq!(
        text,
        "domain: example.org\r\nhttp_proxy: 0.0.0.0:8080\r\npassword: hash\r\nrun_directory: /var/run/qpackt\r\n"
    );
    let back = parse_config(&text).unwrap();
    assert_eq!(back.domain(), "example.org");
    assert!(back.https_proxy_addr().is_none());
}

#[test]
fn missing_keys_are_rejected() {
    assert!(parse_config("domain: a\r\n").is_err());
    assert!(parse_config("").is_err());
    assert!(parse_config("domain a\r\n").is_err());
    assert!(parse_config("domain: a").is_err());
}

#[test]
fn if_empty_then_picks_default_only_when_empty() {
    assert_eq!(if_empty_then(String::new(), "fallback"), "fallback");
    assert_eq!(if_empty_then("value".to_string(), "fallback"), "value");
}

#[test]
fn run_directory_decision() {
    assert_eq!(ensure_app_dir_exists(false, false).unwrap(), true);
    assert_eq!(ensure_app_dir_exists(true, true).unwrap(), false);
    assert!(ensure_app_dir_exists(true, false).is_err());
}
