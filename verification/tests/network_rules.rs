use naveen_ai_host::network_gateway::{
    finish_model_reply, is_loopback_origin, model_reply_text, normalize_origin, parse_allowlist,
    NetworkGateway,
    MAX_PROMPT_LEN, MAX_RESPONSE_BYTES,
};

#[test]
fn normalize_origin_rejects_userinfo_and_wrong_scheme() {
    assert!(normalize_origin("https://user@example.com").is_none());
    assert!(normalize_origin("ftp://example.com").is_none());
}

#[test]
fn normalize_origin_lowercases_scheme_and_authority() {
    assert_eq!(
        normalize_origin("HTTPS://Example.COM/path"),
        Some("https://example.com".to_string())
    );
}

#[test]
fn loopback_matching_requires_exact_host() {
    assert!(is_loopback_origin("http://127.0.0.1:11434"));
    assert!(!is_loopback_origin("http://127.0.0.1.evil.example"));
    assert!(is_loopback_origin("http://localhost:3000"));
    assert!(!is_loopback_origin("http://localhost.evil.example"));
    assert!(is_loopback_origin("http://[::1]:8080"));
    assert!(!is_loopback_origin("http://[::1].evil.example"));
}

#[test]
fn loopback_matching_rejects_malformed_ports() {
    assert!(!is_loopback_origin("http://localhost:"));
    assert!(!is_loopback_origin("http://localhost:abc"));
}

#[test]
fn normalize_origin_trims_and_cuts_at_path_query_or_fragment() {
    assert_eq!(
        normalize_origin("  http://Host:8080?q=1 "),
        Some("http://host:8080".to_string())
    );
    assert_eq!(
        normalize_origin("https://a.example#frag"),
        Some("https://a.example".to_string())
    );
    assert!(normalize_origin("https://").is_none());
    assert!(normalize_origin("https:///path").is_none());
    assert!(normalize_origin("https://exa mple.com").is_none());
    assert!(normalize_origin("https://example.com\\x").is_none());
    assert!(normalize_origin("example.com").is_none());
}

#[test]
fn loopback_needs_http_scheme_and_exact_bracketed_host() {
    assert!(!is_loopback_origin("ftp://localhost"));
    assert!(!is_loopback_origin("localhost"));
    assert!(is_loopback_origin("https://localhost"));
    assert!(is_loopback_origin("http://[::1]"));
    assert!(!is_loopback_origin("http://[::1"));
    assert!(!is_loopback_origin("http://[::2]:80"));
}

#[test]
fn allowlist_keeps_normalized_origins_only() {
    assert_eq!(
        parse_allowlist(" https://A.example/x , ftp://b.example,,http://c.example"),
        vec!["https://a.example".to_string(), "http://c.example".to_string()]
    );
    assert!(parse_allowlist("").is_empty());
}

#[test]
fn model_endpoint_rules() {
    let gateway = NetworkGateway::new(
        Some("https://api.example"),
        Some("https://api.example/v1/chat".to_string()),
        Some("model-1".to_string()),
        None,
        Some("key".to_string()),
    );
    assert_eq!(gateway.ensure_model_allowed("http://localhost:11434/api"), Ok(()));
    assert_eq!(gateway.ensure_model_allowed("https://API.example/other"), Ok(()));
    assert_eq!(
        gateway.ensure_model_allowed("https://other.example"),
        Err("model endpoint is not allowlisted".to_string())
    );
    assert_eq!(
        gateway.ensure_model_allowed("not a url"),
        Err("invalid model endpoint".to_string())
    );
    assert_eq!(
        gateway.ensure_fetch_allowed("http://localhost:11434"),
        Err("network target is not allowlisted".to_string())
    );
    assert_eq!(gateway.ensure_fetch_allowed("https://api.example/feed"), Ok(()));
    assert_eq!(
        gateway.ensure_fetch_allowed("mailto:x"),
        Err("invalid network URL".to_string())
    );
    assert!(!gateway.is_ollama());

    let request = gateway.prepare_model_request("hello").expect("request");
    assert_eq!(request.endpoint, "https://api.example/v1/chat");
    assert_eq!(request.model, "model-1");
    assert!(!request.ollama);
    assert_eq!(request.api_key, Some("key".to_string()));
}

#[test]
fn model_request_checks_come_in_order() {
    let unconfigured = NetworkGateway::new(None, None, None, Some("ollama".to_string()), None);
    assert!(unconfigured.is_ollama());
    assert_eq!(
        unconfigured.prepare_model_request("   ").err(),
        Some("invalid model prompt".to_string())
    );
    assert_eq!(
        unconfigured
            .prepare_model_request(&"x".repeat(MAX_PROMPT_LEN + 1))
            .err(),
        Some("invalid model prompt".to_string())
    );
    assert_eq!(
        unconfigured.prepare_model_request("hi").err(),
        Some("model provider is not configured".to_string())
    );
    let no_model = NetworkGateway::new(
        None,
        Some("http://127.0.0.1:11434/api/chat".to_string()),
        None,
        None,
        None,
    );
    assert_eq!(
        no_model.prepare_model_request("hi").err(),
        Some("model name is not configured".to_string())
    );
    let remote = NetworkGateway::new(
        None,
        Some("https://remote.example".to_string()),
        Some("m".to_string()),
        None,
        None,
    );
    assert_eq!(
        remote.prepare_model_request("hi").err(),
        Some("model endpoint is not allowlisted".to_string())
    );
}

#[test]
fn model_reply_must_hold_text_within_the_limit() {
    assert_eq!(finish_model_reply(Some("answer".to_string())), Ok("answer".to_string()));
    assert_eq!(
        finish_model_reply(None),
        Err("model response did not contain text".to_string())
    );
    assert_eq!(
        finish_model_reply(Some("y".repeat(MAX_RESPONSE_BYTES as usize + 1))),
        Err("model response is too large".to_string())
    );
}

#[test]
fn bracketed_host_takes_only_a_colon_and_digits_after_it() {
    assert!(!is_loopback_origin("http://[::1]x"));
    assert!(!is_loopback_origin("http://[::1]x80"));
    assert!(!is_loopback_origin("http://[::1]:"));
    assert!(!is_loopback_origin("http://[::1]:8a"));
    assert!(is_loopback_origin("http://[::1]:1"));
    assert!(is_loopback_origin("https://[::1]"));
    assert!(!naveen_ai_host::network_gateway::loopback_check_would_cut("http://[::1]x"));
    assert!(naveen_ai_host::network_gateway::loopback_check_would_cut("http://[::1]\u{e9}"));
    assert!(!naveen_ai_host::network_gateway::loopback_check_would_cut("http://localhost:1"));
}

#[test]
fn reply_text_is_read_from_the_provider_shape() {
    assert_eq!(
        model_reply_text(r#"{"message":{"role":"assistant","content":"hi"}}"#, true),
        Ok("hi".to_string())
    );
    assert_eq!(
        model_reply_text(r#"{"choices":[{"message":{"content":"yo"}}]}"#, false),
        Ok("yo".to_string())
    );
    assert_eq!(
        model_reply_text(r#"{"choices":[{"message":{"content":"yo"}}]}"#, true),
        Err("model response did not contain text".to_string())
    );
    assert_eq!(
        model_reply_text(r#"{"choices":[]}"#, false),
        Err("model response did not contain text".to_string())
    );
    assert_eq!(
        model_reply_text(r#"{"message":{"content":7}}"#, true),
        Err("model response did not contain text".to_string())
    );
    assert_eq!(
        model_reply_text("not json", true),
        Err("model returned malformed JSON".to_string())
    );
}
