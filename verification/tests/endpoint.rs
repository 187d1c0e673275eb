use openai_codex::endpoint::{
    build_responses_url, canonical_endpoint, canonical_parts, choose_text, is_default_responses_url,
    is_rewritable, plan_path, resolve_responses_url, try_build_responses_url,
    try_canonical_endpoint, try_is_default_responses_url, try_resolve_responses_url, EndpointError, UrlParts, DEFAULT_CODEX_RESPONSES_URL, MAX_URL_CHARS,
};
use openai_codex::options::{Environment, ProviderRuntimeOptions};

fn parts(scheme: &str, host: Option<&str>, port: Option<u16>, path: &str) -> UrlParts {
    UrlParts {
        scheme: scheme.to_string(),
        host: host.map(str::to_string),
        port,
        path: path.to_string(),
        query: None,
        fragment: None,
        written: String::new(),
    }
}

#[test]
fn build_responses_url_appends_suffix_for_base_url() {
    assert_eq!(
        build_responses_url("https://api.tonsof.blue/v1").unwrap(),
        "https://api.tonsof.blue/v1/responses"
    );
}

#[test]
fn build_responses_url_keeps_existing_responses_endpoint() {
    assert_eq!(
        build_responses_url("https://api.tonsof.blue/v1/responses").unwrap(),
        "https://api.tonsof.blue/v1/responses"
    );
}

#[test]
fn build_responses_url_drops_query_and_fragment() {
    assert_eq!(
        build_responses_url("  https://api.tonsof.blue/v1/?key=1#top ").unwrap(),
        "https://api.tonsof.blue/v1/responses"
    );
    assert_eq!(
        build_responses_url("https://api.tonsof.blue/v1/responses?key=1#top").unwrap(),
        "https://api.tonsof.blue/v1/responses"
    );
}

#[test]
fn build_responses_url_completes_a_bare_host() {
    assert_eq!(
        build_responses_url("http://localhost:8080").unwrap(),
        "http://localhost:8080/responses"
    );
}

#[test]
fn build_responses_url_refuses_a_blank_endpoint() {
    let err = build_responses_url(" \t\n").unwrap_err();
    assert_eq!(err, EndpointError::Empty);
    assert_eq!(err.message(), "OpenAI Codex endpoint override cannot be empty");
}

#[test]
fn build_responses_url_refuses_what_is_no_url() {
    let err = build_responses_url("api.tonsof.blue/v1").unwrap_err();
    assert_eq!(err, EndpointError::InvalidUrl);
    assert_eq!(err.message(), "OpenAI Codex endpoint override must be a valid URL");
}

#[test]
fn build_responses_url_refuses_other_schemes() {
    let err = build_responses_url("ftp://api.tonsof.blue/v1").unwrap_err();
    assert_eq!(err, EndpointError::UnsupportedScheme);
    assert_eq!(err.message(), "OpenAI Codex endpoint override must use http:// or https://");
}

#[test]
fn resolve_responses_url_prefers_explicit_endpoint_env() {
    let environment = Environment {
        responses_url: Some("https://env.example.com/v1/responses".to_string()),
        base_url: Some("https://base.example.com/v1".to_string()),
    };
    let options = ProviderRuntimeOptions::default();
    assert_eq!(
        resolve_responses_url(&options, &environment).unwrap(),
        "https://env.example.com/v1/responses"
    );
}

#[test]
fn resolve_responses_url_uses_provider_api_url_override() {
    let options = ProviderRuntimeOptions {
        provider_api_url: Some("https://proxy.example.com/v1".to_string()),
        ..ProviderRuntimeOptions::default()
    };
    assert_eq!(
        resolve_responses_url(&options, &Environment::default()).unwrap(),
        "https://proxy.example.com/v1/responses"
    );
}

#[test]
fn resolve_responses_url_takes_the_base_behind_a_blank_endpoint() {
    let environment = Environment {
        responses_url: Some("  ".to_string()),
        base_url: Some(" https://base.example.com/v1 ".to_string()),
    };
    let options = ProviderRuntimeOptions {
        provider_api_url: Some("https://proxy.example.com/v1".to_string()),
        ..ProviderRuntimeOptions::default()
    };
    assert_eq!(
        resolve_responses_url(&options, &environment).unwrap(),
        "https://base.example.com/v1/responses"
    );
}

#[test]
fn resolve_responses_url_falls_back_on_the_default() {
    let options = ProviderRuntimeOptions {
        provider_api_url: Some(" ".to_string()),
        ..ProviderRuntimeOptions::default()
    };
    assert_eq!(
        resolve_responses_url(&options, &Environment::default()).unwrap(),
        "https://chatgpt.com/backend-api/codex/responses"
    );
}

#[test]
fn resolve_responses_url_refuses_a_bad_override() {
    let environment = Environment {
        responses_url: Some("nowhere".to_string()),
        base_url: Some("https://base.example.com/v1".to_string()),
    };
    assert_eq!(
        resolve_responses_url(&ProviderRuntimeOptions::default(), &environment),
        Err(EndpointError::InvalidUrl)
    );
}

#[test]
fn default_responses_url_detector_handles_equivalent_urls() {
    assert!(is_default_responses_url(DEFAULT_CODEX_RESPONSES_URL));
    assert!(is_default_responses_url(
        "https://chatgpt.com/backend-api/codex/responses/"
    ));
    assert!(!is_default_responses_url(
        "https://api.tonsof.blue/v1/responses"
    ));
}

#[test]
fn default_responses_url_detector_knows_the_port_and_the_case() {
    assert!(is_default_responses_url("HTTPS://ChatGPT.com:443/backend-api/codex/responses"));
    assert!(!is_default_responses_url("http://chatgpt.com/backend-api/codex/responses"));
    assert!(!is_default_responses_url("chatgpt.com/backend-api/codex/responses"));
}

#[test]
fn canonical_endpoint_reads_scheme_host_port_and_path() {
    assert_eq!(
        canonical_endpoint("http://Example.COM/a//"),
        Some(("http".to_string(), "example.com".to_string(), 80, "/a".to_string()))
    );
    assert_eq!(canonical_endpoint("mailto:someone@example.com"), None);
    assert_eq!(canonical_endpoint("not a url"), None);
}

#[test]
fn canonical_parts_fold_case_and_slashes() {
    assert_eq!(
        canonical_parts(&parts("HTTPS", Some("Host"), Some(8443), "/V1///")),
        Some(("https".to_string(), "host".to_string(), 8443, "/V1".to_string()))
    );
    assert_eq!(canonical_parts(&parts("https", None, Some(1), "/")), None);
    assert_eq!(canonical_parts(&parts("https", Some("h"), None, "/")), None);
}

#[test]
fn plan_path_completes_a_path_once() {
    assert_eq!(
        plan_path(&parts("https", Some("h"), None, "/v1//")),
        Ok(Some("/v1/responses".to_string()))
    );
    assert_eq!(
        plan_path(&parts("http", Some("h"), None, "/")),
        Ok(Some("/responses".to_string()))
    );
    assert_eq!(plan_path(&parts("https", Some("h"), None, "/v1/responses/")), Ok(None));
    assert_eq!(
        plan_path(&parts("wss", Some("h"), None, "/v1/responses")),
        Err(EndpointError::UnsupportedScheme)
    );
}

#[test]
fn an_endpoint_keeps_scheme_host_and_port() {
    assert_eq!(
        build_responses_url("https://a.io/v1/?k=1#f").unwrap(),
        "https://a.io/v1/responses"
    );
    assert_eq!(
        build_responses_url("HTTP://me:pw@Bücher.example:8080/ä//?q#f").unwrap(),
        "http://me:pw@xn--bcher-kva.example:8080/%C3%A4/responses"
    );
    assert_eq!(
        build_responses_url("http://h//a/../responses///?q").unwrap(),
        "http://h//responses///"
    );
    for text in ["https://a.io/v1/?k=1#f", "http://[::1]:81/x y", "http://0x7f.1/responses/#"] {
        let endpoint = build_responses_url(text).unwrap();
        let (scheme, host, port, path) = canonical_endpoint(&endpoint).unwrap();
        let given = canonical_endpoint(text).unwrap();
        assert_eq!((scheme, host, port), (given.0, given.1, given.2));
        assert!(path.ends_with("/responses"));
        assert!(!endpoint.contains('?') && !endpoint.contains('#'));
    }
}

#[test]
fn an_endpoint_stands_for_itself() {
    for text in ["https://a.io", "http://h//a/%2e%2e/b c/", "https://u@h:444/responses//?q#f"] {
        let endpoint = build_responses_url(text).unwrap();
        assert_eq!(build_responses_url(&endpoint).unwrap(), endpoint);
    }
}

#[test]
fn an_overlong_host_is_not_read_again() {
    let label: String = (0..900u32).filter_map(|i| char::from_u32(0x4e00 + i * 20)).collect();
    let endpoint = build_responses_url(&format!("https://{label}.example/v1")).unwrap();
    assert!(endpoint.len() > 2000);
    assert_eq!(canonical_endpoint(&endpoint), None);
    assert!(!is_default_responses_url(&endpoint));
}

#[test]
fn overlong_texts_are_told_apart() {
    let long = "a".repeat(MAX_URL_CHARS + 1);
    assert!(!is_rewritable(&long));
    assert_eq!(try_build_responses_url(&long), None);
    assert_eq!(try_canonical_endpoint(&long), None);
    assert_eq!(try_is_default_responses_url(&long), None);
    assert_eq!(try_canonical_endpoint("https://h/"), Some(canonical_endpoint("https://h/")));
    assert_eq!(try_is_default_responses_url(DEFAULT_CODEX_RESPONSES_URL), Some(true));
}

#[test]
fn ordinary_endpoints_can_be_rewritten() {
    for text in ["", "nowhere", "ftp://a", "https://a.io/v1?q#f", "https://a.io/responses"] {
        assert!(is_rewritable(text));
        assert_eq!(try_build_responses_url(text), Some(build_responses_url(text)));
    }
    let environment = Environment {
        responses_url: None,
        base_url: Some(" https://base.example.com ".to_string()),
    };
    let options = ProviderRuntimeOptions::default();
    assert_eq!(choose_text(&options, &environment).as_deref(), Some("https://base.example.com"));
    assert_eq!(
        try_resolve_responses_url(&options, &environment),
        Some(Ok("https://base.example.com/responses".to_string()))
    );
}
