//! Provider factory and registry.
//!
//! Creates the appropriate provider from a [`ProviderConfig`], enabling runtime
//! selection of LLM backends.

use vstd::prelude::*;

use crate::anthropic::AnthropicProvider;
use crate::error::{ErrorView, PiError};
use crate::openai::{completions_address, openai_compat, OpenAiProvider};
use crate::text::without_trailing;
use crate::types::ProviderConfig;

verus! {

/// A provider of any kind.
pub enum AnyProvider {
    /// One with OpenAI's API.
    OpenAi(OpenAiProvider),
    /// One with Anthropic's API.
    Anthropic(AnthropicProvider),
}

/// A provider has a key, a base URL, and the flags that its base URL tells.
pub open spec fn is_openai(p: OpenAiProvider, api_key: Seq<char>, base_url: Seq<char>) -> bool {
    &&& p.api_key@ == api_key
    &&& p.base_url@ == base_url
    &&& p.compat.deep_view() == openai_compat(base_url)
}

/// The error on a provider that is not supported yet.
pub open spec fn unsupported(name: Seq<char>) -> ErrorView {
    ErrorView::Config("Unsupported provider: "@ + name)
}

/// A provider is the one that a configuration asks for. Ollama exposes an
/// OpenAI-compatible endpoint.
pub open spec fn is_provider_for(
    r: Result<AnyProvider, PiError>,
    config: ProviderConfig,
) -> bool {
    match config {
        ProviderConfig::OpenAi { api_key, base_url } => {
            &&& r matches Ok(AnyProvider::OpenAi(p))
            &&& is_openai(
                p,
                api_key@,
                match base_url {
                    Some(url) => without_trailing(url@, '/'),
                    None => crate::openai::DEFAULT_BASE_URL@,
                },
            )
        },
        ProviderConfig::Anthropic { api_key, base_url } => {
            &&& r matches Ok(AnyProvider::Anthropic(p))
            &&& p.api_key@ == api_key@
            &&& p.base_url@ == match base_url {
                Some(url) => without_trailing(url@, '/'),
                None => crate::anthropic::DEFAULT_BASE_URL@,
            }
        },
        ProviderConfig::Ollama { base_url } => {
            &&& r matches Ok(AnyProvider::OpenAi(p))
            &&& is_openai(p, seq![], without_trailing(base_url@ + "/v1"@, '/'))
        },
        ProviderConfig::Gitlawb { .. } => {
            &&& r matches Err(e)
            &&& e.deep_view() == unsupported("gitlawb"@)
        },
    }
}

/// Create a provider from the given configuration. Fails on one that is not
/// supported yet.
pub fn create_provider(config: &ProviderConfig) -> (r: Result<AnyProvider, PiError>)
    ensures
        is_provider_for(r, *config),
{
    match config {
        ProviderConfig::OpenAi { api_key, base_url } => {
            let provider: OpenAiProvider = match base_url {
                Some(url) => OpenAiProvider::with_base_url(url, Some(api_key.as_str())),
                None => OpenAiProvider::new(api_key),
            };
            Ok(AnyProvider::OpenAi(provider))
        },
        ProviderConfig::Anthropic { api_key, base_url } => {
            let provider: AnthropicProvider = match base_url {
                Some(url) => AnthropicProvider::with_base_url(url, api_key),
                None => AnthropicProvider::new(api_key),
            };
            Ok(AnyProvider::Anthropic(provider))
        },
        ProviderConfig::Ollama { base_url } => {
            let mut url: String = base_url.clone();
            url.push_str("/v1");
            Ok(AnyProvider::OpenAi(OpenAiProvider::with_base_url(&url, None)))
        },
        ProviderConfig::Gitlawb { .. } => {
            let mut message: String = "Unsupported provider: ".to_owned();
            message.push_str("gitlawb");
            Err(PiError::Config(message))
        },
    }
}

/// Requests to Ollama go to its OpenAI-compatible endpoint.
pub proof fn law_ollama_endpoint(base_url: Seq<char>)
    ensures
        completions_address(without_trailing(base_url + "/v1"@, '/')) == base_url
            + "/v1/chat/completions"@,
{
    reveal_strlit("/v1");
    reveal_strlit("/chat/completions");
    reveal_strlit("/v1/chat/completions");
    let url = base_url + "/v1"@;
    assert(url.last() == '1');
    assert(without_trailing(url, '/') == url);
    assert(url.subrange(url.len() - 3, url.len() as int) =~= "/v1"@);
    assert("/v1"@ + "/chat/completions"@ =~= "/v1/chat/completions"@);
    assert(url + "/chat/completions"@ =~= base_url + ("/v1"@ + "/chat/completions"@));
}

/// Return a list of all supported provider identifiers.
pub fn supported_providers() -> (r: Vec<&'static str>)
    ensures
        r.deep_view() == seq!["openai"@, "anthropic"@, "ollama"@],
{
    let mut names: Vec<&'static str> = Vec::new();
    names.push("openai");
    names.push("anthropic");
    names.push("ollama");
    assert(names.deep_view() =~= seq!["openai"@, "anthropic"@, "ollama"@]);
    names
}

} // verus!
