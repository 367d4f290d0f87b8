use rpi::http::{body_preview, invalid_key};
use rpi::provider::{create_provider, supported_providers, AnyProvider};
use rpi::types::ProviderConfig;

#[test]
fn configurations_become_providers() {
    match create_provider(&ProviderConfig::OpenAi {
        api_key: "k".to_string(),
        base_url: Some("https://api.deepseek.com/v1/".to_string()),
    }) {
        Ok(AnyProvider::OpenAi(p)) => {
            assert_eq!(p.api_key, "k");
            assert_eq!(p.base_url, "https://api.deepseek.com/v1");
            assert_eq!(p.completions_url(), "https://api.deepseek.com/v1/chat/completions");
        }
        _ => panic!("unexpected provider"),
    }
    match create_provider(&ProviderConfig::Anthropic {
        api_key: "k".to_string(),
        base_url: None,
    }) {
        Ok(AnyProvider::Anthropic(p)) => assert_eq!(p.api_key, "k"),
        _ => panic!("unexpected provider"),
    }
    match create_provider(&ProviderConfig::Ollama {
        base_url: "http://localhost:11434".to_string(),
    }) {
        Ok(AnyProvider::OpenAi(p)) => {
            assert_eq!(p.api_key, "");
            assert_eq!(p.base_url, "http://localhost:11434/v1");
            assert_eq!(p.completions_url(), "http://localhost:11434/v1/chat/completions");
        }
        _ => panic!("unexpected provider"),
    }
    let refused = create_provider(&ProviderConfig::Gitlawb {
        api_key: "k".to_string(),
        base_url: None,
    });
    assert_eq!(
        refused.err().unwrap().to_text(),
        "config error: Unsupported provider: gitlawb"
    );
}

#[test]
fn supported_providers_are_listed() {
    assert_eq!(supported_providers(), vec!["openai", "anthropic", "ollama"]);
}

#[test]
fn bodies_are_cut_at_whole_characters() {
    assert_eq!(body_preview("x".repeat(512)), "x".repeat(512));
    assert_eq!(
        body_preview("x".repeat(513)),
        format!("{}...(truncated)", "x".repeat(512))
    );
    assert_eq!(
        body_preview("\u{20ac}".repeat(200)),
        format!("{}...(truncated)", "\u{20ac}".repeat(170))
    );
    assert!(invalid_key().to_text().contains("invalid characters in API key"));
}
