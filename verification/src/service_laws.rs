//! What holds of the services that a base URL names.

use vstd::prelude::*;

use crate::anthropic::anthropic_compat;
use crate::error::PiError;
use crate::http::{is_header_char, is_header_text};
use crate::openai::{completions_address, openai_compat};
use crate::provider::{is_provider_for, AnyProvider};
use crate::text::{ascii_lower, contains, ends_with, starts_with, without_trailing};
use crate::text_laws::law_without_trailing;
use crate::types::{ProviderConfig, ThinkingFormat};

verus! {

// ---------------------------------------------------------------------------
// Flags
// ---------------------------------------------------------------------------

/// A URL names a host, in whatever case.
pub open spec fn names(url: Seq<char>, host: Seq<char>) -> bool {
    contains(ascii_lower(url), host)
}

/// A URL names one of some hosts.
pub open spec fn names_one_of(url: Seq<char>, hosts: Seq<Seq<char>>) -> bool {
    exists|i: int| 0 <= i < hosts.len() && names(url, #[trigger] hosts[i])
}

/// The hosts of Together AI.
pub open spec fn together_hosts() -> Seq<Seq<char>> {
    seq!["api.together.ai"@, "api.together.xyz"@]
}

/// The hosts of OpenAI's own API.
pub open spec fn openai_hosts() -> Seq<Seq<char>> {
    seq!["api.openai.com"@, "openai.azure.com"@]
}

/// The hosts of services that neither store responses nor know the developer role.
pub open spec fn plain_hosts() -> Seq<Seq<char>> {
    seq![
        "api.cloudflare.com"@,
        "api.moonshot."@,
        "api.together.ai"@,
        "api.together.xyz"@,
        "api.x.ai"@,
        "api.z.ai"@,
        "cerebras.ai"@,
        "chutes.ai"@,
        "deepseek.com"@,
        "gateway.ai.cloudflare.com"@,
        "opencode.ai"@,
    ]
}

/// The hosts of services that take no reasoning effort.
pub open spec fn effortless_hosts() -> Seq<Seq<char>> {
    seq![
        "api.moonshot."@,
        "api.together.ai"@,
        "api.together.xyz"@,
        "api.x.ai"@,
        "api.z.ai"@,
        "gateway.ai.cloudflare.com"@,
    ]
}

/// The hosts of services that have no strict mode.
pub open spec fn lenient_hosts() -> Seq<Seq<char>> {
    seq!["api.moonshot."@, "api.together.ai"@, "api.together.xyz"@, "gateway.ai.cloudflare.com"@]
}

/// The hosts of services that take the limit under its older name.
pub open spec fn older_limit_hosts() -> Seq<Seq<char>> {
    seq![
        "api.moonshot."@,
        "api.together.ai"@,
        "api.together.xyz"@,
        "chutes.ai"@,
        "gateway.ai.cloudflare.com"@,
    ]
}

/// The hosts of services that do not keep a cache for long.
pub open spec fn forgetful_hosts() -> Seq<Seq<char>> {
    seq![
        "api.cloudflare.com"@,
        "api.together.ai"@,
        "api.together.xyz"@,
        "gateway.ai.cloudflare.com"@,
    ]
}

proof fn lemma_names_one_of(url: Seq<char>)
    ensures
        names_one_of(url, together_hosts()) == (names(url, "api.together.ai"@) || names(
            url,
            "api.together.xyz"@,
        )),
        names_one_of(url, openai_hosts()) == (names(url, "api.openai.com"@) || names(
            url,
            "openai.azure.com"@,
        )),
        names_one_of(url, lenient_hosts()) == (names(url, "api.moonshot."@) || names(
            url,
            "gateway.ai.cloudflare.com"@,
        ) || names_one_of(url, together_hosts())),
        names_one_of(url, older_limit_hosts()) == (names(url, "chutes.ai"@) || names_one_of(
            url,
            lenient_hosts(),
        )),
        names_one_of(url, forgetful_hosts()) == (names(url, "api.cloudflare.com"@) || names(
            url,
            "gateway.ai.cloudflare.com"@,
        ) || names_one_of(url, together_hosts())),
        names_one_of(url, effortless_hosts()) == (names(url, "api.x.ai"@) || names(url, "api.z.ai"@)
            || names_one_of(url, lenient_hosts())),
        names_one_of(url, plain_hosts()) == (names(url, "api.cloudflare.com"@) || names(
            url,
            "cerebras.ai"@,
        ) || names(url, "chutes.ai"@) || names(url, "deepseek.com"@) || names(url, "opencode.ai"@)
            || names_one_of(url, effortless_hosts())),
{
    let together = together_hosts();
    assert(names(url, together[0]) ==> names_one_of(url, together));
    assert(names(url, together[1]) ==> names_one_of(url, together));
    let openai = openai_hosts();
    assert(names(url, openai[0]) ==> names_one_of(url, openai));
    assert(names(url, openai[1]) ==> names_one_of(url, openai));
    let lenient = lenient_hosts();
    assert(forall|i: int| 0 <= i < 4 && names(url, #[trigger] lenient[i]) ==> names_one_of(url, lenient));
    assert(lenient[0] == "api.moonshot."@ && lenient[1] == together[0] && lenient[2] == together[1]);
    assert(lenient[3] == "gateway.ai.cloudflare.com"@);
    let older = older_limit_hosts();
    assert(forall|i: int| 0 <= i < 5 && names(url, #[trigger] older[i]) ==> names_one_of(url, older));
    assert(older[0] == lenient[0] && older[1] == lenient[1] && older[2] == lenient[2]);
    assert(older[3] == "chutes.ai"@ && older[4] == lenient[3]);
    let forgetful = forgetful_hosts();
    assert(forall|i: int|
        0 <= i < 4 && names(url, #[trigger] forgetful[i]) ==> names_one_of(url, forgetful));
    assert(forgetful[0] == "api.cloudflare.com"@ && forgetful[1] == together[0]);
    assert(forgetful[2] == together[1] && forgetful[3] == lenient[3]);
    let effortless = effortless_hosts();
    assert(forall|i: int|
        0 <= i < 6 && names(url, #[trigger] effortless[i]) ==> names_one_of(url, effortless));
    assert(effortless[0] == lenient[0] && effortless[1] == lenient[1]);
    assert(effortless[2] == lenient[2] && effortless[3] == "api.x.ai"@);
    assert(effortless[4] == "api.z.ai"@ && effortless[5] == lenient[3]);
    let plain = plain_hosts();
    assert(forall|i: int| 0 <= i < 11 && names(url, #[trigger] plain[i]) ==> names_one_of(url, plain));
    assert(plain[0] == forgetful[0] && plain[1] == effortless[0] && plain[2] == effortless[1]);
    assert(plain[3] == effortless[2] && plain[4] == effortless[3] && plain[5] == effortless[4]);
    assert(plain[6] == "cerebras.ai"@ && plain[7] == "chutes.ai"@ && plain[8] == "deepseek.com"@);
    assert(plain[9] == effortless[5] && plain[10] == "opencode.ai"@);
}

/// What an OpenAI-compatible service takes is told by the host that its base URL names,
/// in whatever case.
pub proof fn law_openai_flags(url: Seq<char>)
    ensures
        ({
            let flags = openai_compat(url);
            &&& flags.supports_store == Some(!names_one_of(url, plain_hosts()))
            &&& flags.supports_developer_role == flags.supports_store
            &&& flags.supports_reasoning_effort == Some(!names_one_of(url, effortless_hosts()))
            &&& flags.supports_usage_in_streaming == Some(names_one_of(url, openai_hosts()))
            &&& flags.supports_strict_mode == Some(!names_one_of(url, lenient_hosts()))
            &&& flags.supports_long_cache_retention == Some(!names_one_of(url, forgetful_hosts()))
            &&& names_one_of(url, older_limit_hosts()) ==> flags.max_tokens_field == Some(
                "max_tokens"@,
            )
            &&& !names_one_of(url, older_limit_hosts()) ==> flags.max_tokens_field == Some(
                "max_completion_tokens"@,
            )
            &&& flags.requires_tool_result_name == Some(false)
            &&& flags.requires_assistant_after_tool_result == Some(false)
            &&& flags.requires_thinking_as_text == Some(false)
        }),
{
    lemma_names_one_of(url);
}

/// Where a base URL names one service alone, reasoning is asked for in the form of that
/// service. Where it names none that is known, it cannot be asked for.
pub proof fn law_thinking_formats(url: Seq<char>)
    ensures
        ({
            let deepseek = names(url, "deepseek.com"@);
            let openrouter = names(url, "openrouter.ai"@);
            let together = names_one_of(url, together_hosts());
            let zai = names(url, "api.z.ai"@);
            let qwen = names(url, "qwen"@) || names(url, "dashscope"@);
            let openai = names_one_of(url, openai_hosts());
            let format = openai_compat(url).thinking_format;
            &&& deepseek ==> format == Some(ThinkingFormat::DeepSeek)
            &&& openrouter && !deepseek ==> format == Some(ThinkingFormat::OpenRouter)
            &&& together && !deepseek && !openrouter ==> format == Some(ThinkingFormat::Together)
            &&& zai && !deepseek && !openrouter && !together ==> format == Some(
                ThinkingFormat::Zai,
            )
            &&& qwen && !deepseek && !openrouter && !together && !zai ==> format == Some(
                ThinkingFormat::Qwen,
            )
            &&& openai && !deepseek && !openrouter && !together && !zai && !qwen ==> format == Some(
                ThinkingFormat::OpenAi,
            )
            &&& !openai && !deepseek && !openrouter && !together && !zai && !qwen ==> format
                == Some(ThinkingFormat::Unsupported)
        }),
{
    lemma_names_one_of(url);
}

/// Fireworks takes neither tool input as it comes nor cache marks on tools, and keeps no
/// cache for long. It and Cloudflare's gateway to Anthropic are told which session a
/// request belongs to. No service is forced to adapt its thinking.
pub proof fn law_anthropic_flags(url: Seq<char>)
    ensures
        ({
            let flags = anthropic_compat(url);
            let fireworks = names(url, "fireworks"@);
            &&& flags.supports_eager_tool_input_streaming == Some(!fireworks)
            &&& flags.supports_long_cache_retention == Some(!fireworks)
            &&& flags.supports_cache_control_on_tools == Some(!fireworks)
            &&& fireworks ==> flags.send_session_affinity_headers == Some(true)
            &&& names(url, "gateway.ai.cloudflare.com"@) && names(url, "anthropic"@)
                ==> flags.send_session_affinity_headers == Some(true)
            &&& !fireworks && !(names(url, "gateway.ai.cloudflare.com"@) && names(
                url,
                "anthropic"@,
            )) ==> flags.send_session_affinity_headers == Some(false)
            &&& flags.force_adaptive_thinking is None
        }),
{
}

/// Base URLs that differ in case alone tell the same.
pub proof fn law_case_tells_nothing(a: Seq<char>, b: Seq<char>)
    requires
        ascii_lower(a) == ascii_lower(b),
    ensures
        openai_compat(a) == openai_compat(b),
        anthropic_compat(a) == anthropic_compat(b),
{
}

// ---------------------------------------------------------------------------
// Addresses
// ---------------------------------------------------------------------------

/// Requests go below the base URL to the completions of the first version of the API.
/// A version that the base URL ends with is not written twice.
pub proof fn law_completions_address(base_url: Seq<char>)
    ensures
        ({
            let address = completions_address(base_url);
            &&& starts_with(address, base_url)
            &&& ends_with(address, "/v1/chat/completions"@)
            &&& ends_with(base_url, "/v1"@) ==> address.len() + "/v1"@.len() == base_url.len()
                + "/v1/chat/completions"@.len()
            &&& !ends_with(base_url, "/v1"@) ==> address.len() == base_url.len()
                + "/v1/chat/completions"@.len()
        }),
{
    reveal_strlit("/v1");
    reveal_strlit("/chat/completions");
    reveal_strlit("/v1/chat/completions");
    let address = completions_address(base_url);
    let whole = "/v1/chat/completions"@;
    assert("/v1"@ + "/chat/completions"@ =~= whole);
    assert(address.subrange(0, base_url.len() as int) =~= base_url);
    let end = address.subrange(address.len() - whole.len(), address.len() as int);
    if ends_with(base_url, "/v1"@) {
        let version = base_url.subrange(base_url.len() - 3, base_url.len() as int);
        assert(version == "/v1"@);
        assert(end =~= version + "/chat/completions"@);
    } else {
        assert(end =~= whole);
    }
}

/// A header can hold a text exactly where it holds none of the control characters but
/// the tab, and so each part of the text.
pub proof fn law_header_text(a: Seq<char>, b: Seq<char>)
    ensures
        is_header_text(a) <==> forall|i: int|
            0 <= i < a.len() ==> {
                ||| #[trigger] a[i] == '\t'
                ||| '\u{20}' <= a[i] <= '\u{7e}'
                ||| a[i] >= '\u{80}'
            },
        is_header_text(a + b) <==> is_header_text(a) && is_header_text(b),
{
    if is_header_text(a + b) {
        assert forall|i: int| 0 <= i < a.len() implies is_header_char(#[trigger] a[i]) by {
            assert((a + b)[i] == a[i]);
        }
        assert forall|i: int| 0 <= i < b.len() implies is_header_char(#[trigger] b[i]) by {
            assert((a + b)[a.len() + i] == b[i]);
        }
    }
}

// ---------------------------------------------------------------------------
// Providers
// ---------------------------------------------------------------------------

/// A URL is another one up to the slashes at its end.
pub open spec fn is_without_slashes(short: Seq<char>, url: Seq<char>) -> bool {
    &&& short.len() <= url.len()
    &&& url.take(short.len() as int) == short
    &&& forall|i: int| short.len() <= i < url.len() ==> #[trigger] url[i] == '/'
    &&& short.len() > 0 ==> short.last() != '/'
}

proof fn lemma_without_slashes(url: Seq<char>)
    ensures
        is_without_slashes(without_trailing(url, '/'), url),
{
    let n = law_without_trailing(url, '/');
    assert(url.take(n).len() == n);
}

/// A provider has the key of its configuration, and its base URL up to the slashes at
/// its end. Ollama is spoken to as OpenAI is, without a key, and there is no other
/// provider.
pub proof fn law_provider_is_the_configured_one(
    r: Result<AnyProvider, PiError>,
    config: ProviderConfig,
)
    requires
        is_provider_for(r, config),
    ensures
        match config {
            ProviderConfig::OpenAi { api_key, base_url } => {
                &&& r matches Ok(AnyProvider::OpenAi(p))
                &&& p.api_key@ == api_key@
                &&& base_url matches Some(url) ==> is_without_slashes(p.base_url@, url@)
                &&& base_url is None ==> p.base_url@ == "https://api.openai.com"@
                &&& p.compat.deep_view() == openai_compat(p.base_url@)
            },
            ProviderConfig::Anthropic { api_key, base_url } => {
                &&& r matches Ok(AnyProvider::Anthropic(p))
                &&& p.api_key@ == api_key@
                &&& base_url matches Some(url) ==> is_without_slashes(p.base_url@, url@)
                &&& base_url is None ==> p.base_url@ == "https://api.anthropic.com"@
            },
            ProviderConfig::Ollama { base_url } => {
                &&& r matches Ok(AnyProvider::OpenAi(p))
                &&& p.api_key@.len() == 0
                &&& p.base_url@ == base_url@ + "/v1"@
            },
            ProviderConfig::Gitlawb { .. } => r is Err,
        },
{
    match config {
        ProviderConfig::OpenAi { api_key, base_url } => {
            if let Some(url) = base_url {
                lemma_without_slashes(url@);
            }
        },
        ProviderConfig::Anthropic { api_key, base_url } => {
            if let Some(url) = base_url {
                lemma_without_slashes(url@);
            }
        },
        ProviderConfig::Ollama { base_url } => {
            reveal_strlit("/v1");
            assert((base_url@ + "/v1"@).last() == '1');
        },
        ProviderConfig::Gitlawb { .. } => {},
    }
}

} // verus!
