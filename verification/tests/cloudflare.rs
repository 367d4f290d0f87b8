use rpi::cloudflare::{
    is_cloudflare_provider, is_env_placeholder, resolve_cloudflare_base_url,
    resolve_cloudflare_base_url_with, CLOUDFLARE_AI_GATEWAY_ANTHROPIC_BASE_URL,
    CLOUDFLARE_AI_GATEWAY_COMPAT_BASE_URL, CLOUDFLARE_AI_GATEWAY_OPENAI_BASE_URL,
    CLOUDFLARE_WORKERS_AI_BASE_URL,
};

fn pair(name: &str, value: &str) -> (String, String) {
    (name.to_string(), value.to_string())
}

#[test]
fn recognizes_cloudflare_provider_ids() {
    assert!(is_cloudflare_provider("cloudflare-workers-ai"));
    assert!(is_cloudflare_provider("cloudflare-ai-gateway"));
    assert!(!is_cloudflare_provider("openai"));
}

#[test]
fn leaves_urls_without_placeholders_unchanged() {
    let url = "https://example.com/v1";

    let resolved = resolve_cloudflare_base_url_with(url, "cloudflare-workers-ai", |_: &str| None)
        .expect("plain URL should resolve");

    assert_eq!(resolved, url);
}

#[test]
fn substitutes_cloudflare_environment_placeholders() {
    let resolved = resolve_cloudflare_base_url_with(
        CLOUDFLARE_AI_GATEWAY_COMPAT_BASE_URL,
        "cloudflare-ai-gateway",
        |name: &str| match name {
            "CLOUDFLARE_ACCOUNT_ID" => Some("account-123".to_string()),
            "CLOUDFLARE_GATEWAY_ID" => Some("gateway-456".to_string()),
            _ => None,
        },
    )
    .expect("gateway URL should resolve");

    assert_eq!(
        resolved,
        "https://gateway.ai.cloudflare.com/v1/account-123/gateway-456/compat"
    );
}

#[test]
fn reports_missing_cloudflare_environment_placeholder() {
    let error = resolve_cloudflare_base_url_with(
        CLOUDFLARE_WORKERS_AI_BASE_URL,
        "cloudflare-workers-ai",
        |_: &str| None,
    )
    .expect_err("missing env var should fail");

    assert_eq!(
        error.to_text(),
        "config error: CLOUDFLARE_ACCOUNT_ID is required for provider cloudflare-workers-ai but is not set."
    );
}

#[test]
fn environment_fills_all_templates() {
    let env = vec![
        pair("CLOUDFLARE_GATEWAY_ID", "g"),
        pair("CLOUDFLARE_ACCOUNT_ID", "a"),
    ];
    assert_eq!(
        resolve_cloudflare_base_url(CLOUDFLARE_AI_GATEWAY_OPENAI_BASE_URL, "p", &env).unwrap(),
        "https://gateway.ai.cloudflare.com/v1/a/g/openai"
    );
    assert_eq!(
        resolve_cloudflare_base_url(CLOUDFLARE_AI_GATEWAY_ANTHROPIC_BASE_URL, "p", &env).unwrap(),
        "https://gateway.ai.cloudflare.com/v1/a/g/anthropic"
    );
    assert!(resolve_cloudflare_base_url(
        CLOUDFLARE_AI_GATEWAY_OPENAI_BASE_URL,
        "p",
        &vec![pair("CLOUDFLARE_ACCOUNT_ID", "a")]
    )
    .is_err());
}

#[test]
fn other_braces_are_kept() {
    let env = vec![pair("A", "1"), pair("B_2", "2")];
    assert_eq!(
        resolve_cloudflare_base_url("x/{lower}/{A}{B_2}/{}/{A", "p", &env).unwrap(),
        "x/{lower}/12/{}/{A"
    );
    assert!(is_env_placeholder("_X9"));
    assert!(!is_env_placeholder("9X"));
    assert!(!is_env_placeholder(""));
    assert!(!is_env_placeholder("Ab"));
}
