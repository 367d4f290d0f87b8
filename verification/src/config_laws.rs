//! What holds of configurations: what setting a key changes, and which layer wins.

use vstd::prelude::*;

use crate::config::{
    all_patched, bool_of, compaction_of, config_interpolated, config_with, interpolated,
    law_set_value_is_found, optional_interpolated, patched, placeholder, texts_interpolated,
    token_interpolated, tokens_interpolated, u32_of, value_named, with_compaction_field, with_env,
    with_overrides, with_values, with_variable, CompactionConfig, CompactionPatch, ConfigErrorView,
    ConfigView, Env, PatchView, TokenView,
};
use crate::json::parsed_real;
use crate::text::{ascii_lower, decimal, index_of, lemma_index_of, starts_with, without_prefix};
use crate::text_laws::{law_decimal, law_signed_text, law_without_prefix};

verus! {

// ---------------------------------------------------------------------------
// Keys
// ---------------------------------------------------------------------------

/// Two configurations differ at most in the keys and the base URLs.
pub open spec fn differ_in_providers(a: ConfigView, b: ConfigView) -> bool {
    &&& a.default_model == b.default_model
    &&& a.oauth_tokens == b.oauth_tokens
    &&& a.models == b.models
    &&& a.keybindings == b.keybindings
    &&& a.system_prompt == b.system_prompt
    &&& a.max_tokens == b.max_tokens
    &&& a.temperature == b.temperature
    &&& a.compaction == b.compaction
}

proof fn lemma_keys(provider: Seq<char>)
    ensures
        "default_model"@ != "api_key."@ + provider,
        "system_prompt"@ != "api_key."@ + provider,
        "max_tokens"@ != "api_key."@ + provider,
        "temperature"@ != "api_key."@ + provider,
        "default_model"@ != "base_url."@ + provider,
        "system_prompt"@ != "base_url."@ + provider,
        "max_tokens"@ != "base_url."@ + provider,
        "temperature"@ != "base_url."@ + provider,
        "default_model"@ != "compaction."@ + provider,
        "system_prompt"@ != "compaction."@ + provider,
        "max_tokens"@ != "compaction."@ + provider,
        "temperature"@ != "compaction."@ + provider,
        without_prefix("base_url."@ + provider, "api_key."@) is None,
        without_prefix("compaction."@ + provider, "api_key."@) is None,
        without_prefix("compaction."@ + provider, "base_url."@) is None,
        "default_model"@ != "system_prompt"@,
        "default_model"@ != "max_tokens"@,
        "default_model"@ != "temperature"@,
        "system_prompt"@ != "max_tokens"@,
        "system_prompt"@ != "temperature"@,
        "max_tokens"@ != "temperature"@,
{
    reveal_strlit("default_model");
    reveal_strlit("system_prompt");
    reveal_strlit("max_tokens");
    reveal_strlit("temperature");
    reveal_strlit("api_key.");
    reveal_strlit("base_url.");
    reveal_strlit("compaction.");
    let a = "api_key."@ + provider;
    let b = "base_url."@ + provider;
    let c = "compaction."@ + provider;
    assert(a[0] == 'a' && b[0] == 'b' && c[0] == 'c');
    assert("default_model"@[0] == 'd' && "system_prompt"@[0] == 's' && "max_tokens"@[0] == 'm'
        && "temperature"@[0] == 't');
    assert(b.subrange(0, "api_key."@.len() as int)[0] == b[0]);
    assert(c.subrange(0, "api_key."@.len() as int)[0] == c[0]);
    assert(c.subrange(0, "base_url."@.len() as int)[0] == c[0]);
    assert("api_key."@[0] == 'a' && "base_url."@[0] == 'b');
}

/// Setting the key or the base URL of a provider sets just that: it is found afterwards,
/// and those of all other providers are the same as before, as is everything else.
pub proof fn law_provider_settings(
    c: ConfigView,
    provider: Seq<char>,
    value: Seq<char>,
    other: Seq<char>,
)
    ensures
        config_with(c, "api_key."@ + provider, value) matches Ok(next) && differ_in_providers(
            c,
            next,
        ) && next.base_urls == c.base_urls && value_named(next.api_keys, provider) == Some(value)
            && (other != provider ==> value_named(next.api_keys, other) == value_named(
            c.api_keys,
            other,
        )),
        config_with(c, "base_url."@ + provider, value) matches Ok(next) && differ_in_providers(
            c,
            next,
        ) && next.api_keys == c.api_keys && value_named(next.base_urls, provider) == Some(value)
            && (other != provider ==> value_named(next.base_urls, other) == value_named(
            c.base_urls,
            other,
        )),
{
    lemma_keys(provider);
    law_without_prefix(provider, "api_key."@);
    law_without_prefix(provider, "base_url."@);
    law_set_value_is_found(c.api_keys, provider, value, other);
    law_set_value_is_found(c.base_urls, provider, value, other);
}

/// Setting the model or the prompt sets just that, and so does setting the limit or the
/// temperature where the value is a number; where it is none, the error holds it.
pub proof fn law_single_settings(c: ConfigView, value: Seq<char>)
    ensures
        config_with(c, "default_model"@, value) == Ok::<ConfigView, ConfigErrorView>(
            (ConfigView { default_model: Some(value), ..c }),
        ),
        config_with(c, "system_prompt"@, value) == Ok::<ConfigView, ConfigErrorView>(
            (ConfigView { system_prompt: Some(value), ..c }),
        ),
        match config_with(c, "max_tokens"@, value) {
            Ok(next) => u32_of(value) is Some && next == (ConfigView {
                max_tokens: u32_of(value),
                ..c
            }),
            Err(e) => u32_of(value) is None && e == (ConfigErrorView::InvalidInteger { value }),
        },
        match config_with(c, "temperature"@, value) {
            Ok(next) => parsed_real(value) is Some && next == (ConfigView {
                temperature: Some(value),
                ..c
            }),
            Err(e) => parsed_real(value) is None && e == (ConfigErrorView::InvalidNumber { value }),
        },
{
    lemma_keys(seq![]);
}

/// Setting a field of the compaction settings sets just that field, of the settings that
/// are there; where there are none, of the defaults, which are then not enabled.
pub proof fn law_compaction_settings(c: ConfigView, name: Seq<char>, value: Seq<char>)
    ensures
        config_with(c, "compaction."@ + name, value) == with_compaction_field(c, name, value),
        match with_compaction_field(c, name, value) {
            Ok(next) => {
                let before = match c.compaction {
                    Some(compaction) => compaction,
                    None => CompactionConfig {
                        enabled: false,
                        context_window: None,
                        reserve_tokens: 16_384,
                        keep_recent_tokens: 20_000,
                    },
                };
                &&& next == (ConfigView { compaction: next.compaction, ..c })
                &&& next.compaction matches Some(after) && {
                    &&& name == "enabled"@ ==> bool_of(value) == Some(after.enabled)
                    &&& name != "enabled"@ ==> after.enabled == before.enabled
                    &&& name == "context_window"@ ==> u32_of(value) is Some && after.context_window
                        == u32_of(value)
                    &&& name != "context_window"@ ==> after.context_window == before.context_window
                    &&& name == "reserve_tokens"@ ==> u32_of(value) == Some(after.reserve_tokens)
                    &&& name != "reserve_tokens"@ ==> after.reserve_tokens == before.reserve_tokens
                    &&& name == "keep_recent_tokens"@ ==> u32_of(value) == Some(
                        after.keep_recent_tokens,
                    )
                    &&& name != "keep_recent_tokens"@ ==> after.keep_recent_tokens
                        == before.keep_recent_tokens
                }
            },
            Err(e) => {
                ||| e == (ConfigErrorView::UnknownCompactionKey { key: name }) && name
                    != "enabled"@ && name != "context_window"@ && name != "reserve_tokens"@ && name
                    != "keep_recent_tokens"@
                ||| e == (ConfigErrorView::InvalidBool { value }) && name == "enabled"@ && bool_of(
                    value,
                ) is None
                ||| e == (ConfigErrorView::InvalidInteger { value }) && u32_of(value) is None && (
                name == "context_window"@ || name == "reserve_tokens"@ || name
                    == "keep_recent_tokens"@)
            },
        },
{
    lemma_keys(name);
    law_without_prefix(name, "compaction."@);
    lemma_compaction_names();
}

proof fn lemma_compaction_names()
    ensures
        "enabled"@ != "context_window"@,
        "enabled"@ != "reserve_tokens"@,
        "enabled"@ != "keep_recent_tokens"@,
        "context_window"@ != "reserve_tokens"@,
        "context_window"@ != "keep_recent_tokens"@,
        "reserve_tokens"@ != "keep_recent_tokens"@,
{
    reveal_strlit("enabled");
    reveal_strlit("context_window");
    reveal_strlit("reserve_tokens");
    reveal_strlit("keep_recent_tokens");
    assert("enabled"@[0] == 'e' && "context_window"@[0] == 'c' && "reserve_tokens"@[0] == 'r'
        && "keep_recent_tokens"@[0] == 'k');
}

/// A key that is none of those is an error that holds it, and changes nothing.
pub proof fn law_unknown_keys(c: ConfigView, key: Seq<char>, value: Seq<char>)
    requires
        key != "default_model"@,
        key != "system_prompt"@,
        key != "max_tokens"@,
        key != "temperature"@,
        !starts_with(key, "api_key."@),
        !starts_with(key, "base_url."@),
        !starts_with(key, "compaction."@),
    ensures
        config_with(c, key, value) == Err::<ConfigView, ConfigErrorView>(
            ConfigErrorView::UnknownKey { key },
        ),
{
}

/// A number is read from its digits where it has room, and nothing from a larger one.
/// True and false are read from their names and from nothing else.
pub proof fn law_values_are_read(n: nat, text: Seq<char>)
    ensures
        n <= u32::MAX ==> u32_of(decimal(n)) == Some(n as u32),
        n > u32::MAX ==> u32_of(decimal(n)) is None,
        bool_of(text) == Some(true) <==> text == "true"@,
        bool_of(text) == Some(false) <==> text == "false"@,
{
    law_signed_text(n as int);
    law_decimal(n);
    reveal_strlit("true");
    reveal_strlit("false");
    assert("true"@[0] == 't' && "false"@[0] == 'f');
}

// ---------------------------------------------------------------------------
// Layers
// ---------------------------------------------------------------------------

/// The pair at a place is the last with a name.
pub open spec fn is_last_named<V>(pairs: Seq<(Seq<char>, V)>, name: Seq<char>, i: int) -> bool {
    &&& 0 <= i < pairs.len()
    &&& pairs[i].0 == name
    &&& forall|j: int| i < j < pairs.len() ==> (#[trigger] pairs[j]).0 != name
}

/// Of values that take the places of others, the last with a name is found under it. A
/// name that none of them has is found as before.
pub proof fn law_later_values_win<V>(
    pairs: Seq<(Seq<char>, V)>,
    more: Seq<(Seq<char>, V)>,
    name: Seq<char>,
)
    ensures
        forall|i: int| #[trigger]
            is_last_named(more, name, i) ==> value_named(with_values(pairs, more), name) == Some(
                more[i].1,
            ),
        (forall|j: int| 0 <= j < more.len() ==> (#[trigger] more[j]).0 != name) ==> value_named(
            with_values(pairs, more),
            name,
        ) == value_named(pairs, name),
    decreases more.len(),
{
    if more.len() > 0 {
        let front = more.drop_last();
        let n = more.len() - 1;
        law_later_values_win(pairs, front, name);
        let before = with_values(pairs, front);
        law_set_value_is_found(before, more.last().0, more.last().1, name);
        assert(forall|j: int| 0 <= j < n ==> front[j] == #[trigger] more[j]);
        assert(more[n] == more.last());
        assert forall|i: int| #[trigger] is_last_named(more, name, i) implies value_named(
            with_values(pairs, more),
            name,
        ) == Some(more[i].1) by {
            if i < n {
                assert(more[n].0 != name);
                assert(is_last_named(front, name, i));
            }
        }
        if forall|j: int| 0 <= j < more.len() ==> (#[trigger] more[j]).0 != name {
            assert(more[n].0 != name);
            assert forall|j: int| 0 <= j < front.len() implies (#[trigger] front[j]).0 != name by {
                assert(more[j].0 != name);
            }
        }
    }
}

/// What a file says takes the place of what was said before, and what it does not say
/// stays: each setting on its own, each name of a list on its own, and each field of the
/// compaction settings on its own.
pub proof fn law_file_says(c: ConfigView, patch: PatchView, name: Seq<char>)
    ensures
        ({
            let next = patched(c, patch);
            &&& patch.default_model is Some ==> next.default_model == patch.default_model
            &&& patch.default_model is None ==> next.default_model == c.default_model
            &&& patch.system_prompt is Some ==> next.system_prompt == patch.system_prompt
            &&& patch.system_prompt is None ==> next.system_prompt == c.system_prompt
            &&& patch.max_tokens is Some ==> next.max_tokens == patch.max_tokens
            &&& patch.max_tokens is None ==> next.max_tokens == c.max_tokens
            &&& patch.temperature is Some ==> next.temperature == patch.temperature
            &&& patch.temperature is None ==> next.temperature == c.temperature
            &&& is_overlaid(next.api_keys, c.api_keys, patch.api_keys, name)
            &&& is_overlaid(next.base_urls, c.base_urls, patch.base_urls, name)
            &&& is_overlaid(next.oauth_tokens, c.oauth_tokens, patch.oauth_tokens, name)
            &&& is_overlaid(next.models, c.models, patch.models, name)
            &&& is_overlaid(next.keybindings, c.keybindings, patch.keybindings, name)
            &&& patch.compaction is None ==> next.compaction == c.compaction
            &&& patch.compaction matches Some(own) ==> (next.compaction matches Some(after)
                && is_compaction_overlaid(after, compaction_of(c), own))
        }),
{
    law_later_values_win(c.api_keys, patch.api_keys, name);
    law_later_values_win(c.base_urls, patch.base_urls, name);
    law_later_values_win(c.oauth_tokens, patch.oauth_tokens, name);
    law_later_values_win(c.models, patch.models, name);
    law_later_values_win(c.keybindings, patch.keybindings, name);
}

/// Under a name stands the last of some new values that has it, or what was there before
/// where none has.
pub open spec fn is_overlaid<V>(
    after: Seq<(Seq<char>, V)>,
    before: Seq<(Seq<char>, V)>,
    more: Seq<(Seq<char>, V)>,
    name: Seq<char>,
) -> bool {
    &&& forall|i: int| #[trigger]
        is_last_named(more, name, i) ==> value_named(after, name) == Some(more[i].1)
    &&& (forall|j: int| 0 <= j < more.len() ==> (#[trigger] more[j]).0 != name) ==> value_named(
        after,
        name,
    ) == value_named(before, name)
}

/// Each field of the compaction settings is what a file says, or what it was.
pub open spec fn is_compaction_overlaid(
    after: CompactionConfig,
    before: CompactionConfig,
    patch: CompactionPatch,
) -> bool {
    &&& patch.enabled matches Some(enabled) ==> after.enabled == enabled
    &&& patch.enabled is None ==> after.enabled == before.enabled
    &&& patch.context_window is Some ==> after.context_window == patch.context_window
    &&& patch.context_window is None ==> after.context_window == before.context_window
    &&& patch.reserve_tokens matches Some(n) ==> after.reserve_tokens == n
    &&& patch.reserve_tokens is None ==> after.reserve_tokens == before.reserve_tokens
    &&& patch.keep_recent_tokens matches Some(n) ==> after.keep_recent_tokens == n
    &&& patch.keep_recent_tokens is None ==> after.keep_recent_tokens == before.keep_recent_tokens
}

/// Where nothing was said of compaction, a file changes the defaults, which are enabled.
pub proof fn law_default_compaction(c: ConfigView)
    ensures
        c.compaction matches Some(own) ==> compaction_of(c) == own,
        c.compaction is None ==> compaction_of(c).enabled && compaction_of(c).context_window is None
            && compaction_of(c).reserve_tokens == 16_384 && compaction_of(c).keep_recent_tokens
            == 20_000,
{
}

/// A value is what the last of some files that says anything says, or what it was before
/// where none does.
pub open spec fn is_last_said<V>(
    after: Option<V>,
    before: Option<V>,
    patches: Seq<PatchView>,
    says: spec_fn(PatchView) -> Option<V>,
) -> bool {
    ||| (after == before && forall|i: int|
        0 <= i < patches.len() ==> says(#[trigger] patches[i]) is None)
    ||| exists|i: int|
        0 <= i < patches.len() && says(#[trigger] patches[i]) is Some && after == says(patches[i])
            && forall|j: int| i < j < patches.len() ==> says(#[trigger] patches[j]) is None
}

proof fn lemma_last_said<V>(
    after: Option<V>,
    before: Option<V>,
    patches: Seq<PatchView>,
    says: spec_fn(PatchView) -> Option<V>,
)
    requires
        patches.len() > 0,
        is_last_said(after, before, patches.drop_last(), says),
    ensures
        is_last_said(
            if says(patches.last()) is Some {
                says(patches.last())
            } else {
                after
            },
            before,
            patches,
            says,
        ),
{
    let front = patches.drop_last();
    let n = patches.len() - 1;
    assert(forall|j: int| 0 <= j < n ==> front[j] == #[trigger] patches[j]);
    if says(patches.last()) is Some {
        assert(says(patches[n]) is Some);
    } else if exists|i: int| 0 <= i < front.len() && says(#[trigger] front[i]) is Some {
        let i = choose|i: int|
            0 <= i < front.len() && says(#[trigger] front[i]) is Some && after == says(front[i])
                && forall|j: int| i < j < front.len() ==> says(#[trigger] front[j]) is None;
        assert(says(patches[i]) is Some);
    }
}

/// Of several files the last that says something of a setting wins.
pub proof fn law_last_file_wins(c: ConfigView, patches: Seq<PatchView>)
    ensures
        is_last_said(
            all_patched(c, patches).default_model,
            c.default_model,
            patches,
            |p: PatchView| p.default_model,
        ),
        is_last_said(
            all_patched(c, patches).system_prompt,
            c.system_prompt,
            patches,
            |p: PatchView| p.system_prompt,
        ),
        is_last_said(
            all_patched(c, patches).max_tokens,
            c.max_tokens,
            patches,
            |p: PatchView| p.max_tokens,
        ),
        is_last_said(
            all_patched(c, patches).temperature,
            c.temperature,
            patches,
            |p: PatchView| p.temperature,
        ),
    decreases patches.len(),
{
    if patches.len() > 0 {
        let front = all_patched(c, patches.drop_last());
        law_last_file_wins(c, patches.drop_last());
        lemma_last_said(
            front.default_model,
            c.default_model,
            patches,
            |p: PatchView| p.default_model,
        );
        lemma_last_said(
            front.system_prompt,
            c.system_prompt,
            patches,
            |p: PatchView| p.system_prompt,
        );
        lemma_last_said(front.max_tokens, c.max_tokens, patches, |p: PatchView| p.max_tokens);
        lemma_last_said(front.temperature, c.temperature, patches, |p: PatchView| p.temperature);
    }
}

proof fn lemma_variables(provider: Seq<char>)
    ensures
        ({
            let a = "RPI_API_KEY_"@ + provider;
            let b = "RPI_BASE_URL_"@ + provider;
            &&& a != "RPI_DEFAULT_MODEL"@
            &&& a != "RPI_SYSTEM_PROMPT"@
            &&& a != "RPI_MAX_TOKENS"@
            &&& a != "RPI_TEMPERATURE"@
            &&& a != "RPI_COMPACTION_ENABLED"@
            &&& a != "RPI_COMPACTION_CONTEXT_WINDOW"@
            &&& a != "RPI_COMPACTION_RESERVE_TOKENS"@
            &&& a != "RPI_COMPACTION_KEEP_RECENT_TOKENS"@
            &&& b != "RPI_DEFAULT_MODEL"@
            &&& b != "RPI_SYSTEM_PROMPT"@
            &&& b != "RPI_MAX_TOKENS"@
            &&& b != "RPI_TEMPERATURE"@
            &&& b != "RPI_COMPACTION_ENABLED"@
            &&& b != "RPI_COMPACTION_CONTEXT_WINDOW"@
            &&& b != "RPI_COMPACTION_RESERVE_TOKENS"@
            &&& b != "RPI_COMPACTION_KEEP_RECENT_TOKENS"@
            &&& without_prefix(b, "RPI_API_KEY_"@) is None
            &&& "RPI_DEFAULT_MODEL"@ != "RPI_SYSTEM_PROMPT"@
        }),
{
    reveal_strlit("RPI_API_KEY_");
    reveal_strlit("RPI_BASE_URL_");
    reveal_strlit("RPI_DEFAULT_MODEL");
    reveal_strlit("RPI_SYSTEM_PROMPT");
    reveal_strlit("RPI_MAX_TOKENS");
    reveal_strlit("RPI_TEMPERATURE");
    reveal_strlit("RPI_COMPACTION_ENABLED");
    reveal_strlit("RPI_COMPACTION_CONTEXT_WINDOW");
    reveal_strlit("RPI_COMPACTION_RESERVE_TOKENS");
    reveal_strlit("RPI_COMPACTION_KEEP_RECENT_TOKENS");
    let a = "RPI_API_KEY_"@ + provider;
    let b = "RPI_BASE_URL_"@ + provider;
    assert(a[4] == 'A' && b[4] == 'B');
    assert("RPI_DEFAULT_MODEL"@[4] == 'D' && "RPI_SYSTEM_PROMPT"@[4] == 'S');
    assert("RPI_MAX_TOKENS"@[4] == 'M' && "RPI_TEMPERATURE"@[4] == 'T');
    assert("RPI_COMPACTION_ENABLED"@[4] == 'C' && "RPI_COMPACTION_CONTEXT_WINDOW"@[4] == 'C');
    assert("RPI_COMPACTION_RESERVE_TOKENS"@[4] == 'C');
    assert("RPI_COMPACTION_KEEP_RECENT_TOKENS"@[4] == 'C');
    assert("RPI_API_KEY_"@[4] == 'A');
    assert(b.subrange(0, "RPI_API_KEY_"@.len() as int)[4] == b[4]);
}

/// A variable of the environment sets what its name says: the model, the prompt, or the
/// key or the base URL of the provider whose name, in small letters, it ends with.
/// Everything else stays.
pub proof fn law_variable_says(
    c: ConfigView,
    provider: Seq<char>,
    value: Seq<char>,
    other: Seq<char>,
)
    ensures
        with_variable(c, "RPI_DEFAULT_MODEL"@, value) == Ok::<ConfigView, ConfigErrorView>(
            (ConfigView { default_model: Some(value), ..c }),
        ),
        with_variable(c, "RPI_SYSTEM_PROMPT"@, value) == Ok::<ConfigView, ConfigErrorView>(
            (ConfigView { system_prompt: Some(value), ..c }),
        ),
        with_variable(c, "RPI_API_KEY_"@ + provider, value) matches Ok(next)
            && differ_in_providers(c, next) && next.base_urls == c.base_urls && value_named(
            next.api_keys,
            ascii_lower(provider),
        ) == Some(value) && (other != ascii_lower(provider) ==> value_named(next.api_keys, other)
            == value_named(c.api_keys, other)),
        with_variable(c, "RPI_BASE_URL_"@ + provider, value) matches Ok(next)
            && differ_in_providers(c, next) && next.api_keys == c.api_keys && value_named(
            next.base_urls,
            ascii_lower(provider),
        ) == Some(value) && (other != ascii_lower(provider) ==> value_named(next.base_urls, other)
            == value_named(c.base_urls, other)),
{
    lemma_variables(provider);
    law_without_prefix(provider, "RPI_API_KEY_"@);
    law_without_prefix(provider, "RPI_BASE_URL_"@);
    law_set_value_is_found(c.api_keys, ascii_lower(provider), value, other);
    law_set_value_is_found(c.base_urls, ascii_lower(provider), value, other);
}

/// A variable that has nothing to do with the configuration changes nothing.
pub proof fn law_other_variables(c: ConfigView, name: Seq<char>, value: Seq<char>)
    requires
        !starts_with(name, "RPI_"@),
    ensures
        with_variable(c, name, value) == Ok::<ConfigView, ConfigErrorView>(c),
{
    reveal_strlit("RPI_");
    reveal_strlit("RPI_API_KEY_");
    reveal_strlit("RPI_BASE_URL_");
    reveal_strlit("RPI_DEFAULT_MODEL");
    reveal_strlit("RPI_SYSTEM_PROMPT");
    reveal_strlit("RPI_MAX_TOKENS");
    reveal_strlit("RPI_TEMPERATURE");
    reveal_strlit("RPI_COMPACTION_ENABLED");
    reveal_strlit("RPI_COMPACTION_CONTEXT_WINDOW");
    reveal_strlit("RPI_COMPACTION_RESERVE_TOKENS");
    reveal_strlit("RPI_COMPACTION_KEEP_RECENT_TOKENS");
    assert("RPI_DEFAULT_MODEL"@.subrange(0, 4) =~= "RPI_"@);
    assert("RPI_SYSTEM_PROMPT"@.subrange(0, 4) =~= "RPI_"@);
    assert("RPI_MAX_TOKENS"@.subrange(0, 4) =~= "RPI_"@);
    assert("RPI_TEMPERATURE"@.subrange(0, 4) =~= "RPI_"@);
    assert("RPI_COMPACTION_ENABLED"@.subrange(0, 4) =~= "RPI_"@);
    assert("RPI_COMPACTION_CONTEXT_WINDOW"@.subrange(0, 4) =~= "RPI_"@);
    assert("RPI_COMPACTION_RESERVE_TOKENS"@.subrange(0, 4) =~= "RPI_"@);
    assert("RPI_COMPACTION_KEEP_RECENT_TOKENS"@.subrange(0, 4) =~= "RPI_"@);
    if starts_with(name, "RPI_API_KEY_"@) {
        assert(name.subrange(0, 4) =~= name.subrange(0, 12).subrange(0, 4));
        assert("RPI_API_KEY_"@.subrange(0, 4) =~= "RPI_"@);
    }
    if starts_with(name, "RPI_BASE_URL_"@) {
        assert(name.subrange(0, 4) =~= name.subrange(0, 13).subrange(0, 4));
        assert("RPI_BASE_URL_"@.subrange(0, 4) =~= "RPI_"@);
    }
}

/// The environment is taken variable by variable, and so are the keys of the command
/// line: the last one comes last, and where one fails, its error is the result.
pub proof fn law_taken_in_order(c: ConfigView, pairs: Env, name: Seq<char>, value: Seq<char>)
    ensures
        with_env(c, pairs) matches Ok(before) ==> with_env(c, pairs.push((name, value)))
            == with_variable(before, name, value),
        with_env(c, pairs) matches Err(e) ==> with_env(c, pairs.push((name, value))) == Err::<
            ConfigView,
            ConfigErrorView,
        >(e),
        with_overrides(c, pairs) matches Ok(before) ==> with_overrides(c, pairs.push((name, value)))
            == config_with(before, name, value),
        with_overrides(c, pairs) matches Err(e) ==> with_overrides(c, pairs.push((name, value)))
            == Err::<ConfigView, ConfigErrorView>(e),
        with_env(c, Seq::empty()) == Ok::<ConfigView, ConfigErrorView>(c),
        with_overrides(c, Seq::empty()) == Ok::<ConfigView, ConfigErrorView>(c),
{
    let more = pairs.push((name, value));
    assert(more.drop_last() =~= pairs);
    assert(more.last() == (name, value));
}

// ---------------------------------------------------------------------------
// Placeholders
// ---------------------------------------------------------------------------

/// A text holds no start of a placeholder.
pub open spec fn has_no_placeholder(text: Seq<char>) -> bool {
    forall|i: int| 0 <= i < text.len() - 1 ==> !(#[trigger] text[i] == '$' && text[i + 1] == '{')
}

proof fn lemma_first_placeholder(front: Seq<char>, rest: Seq<char>)
    requires
        has_no_placeholder(front),
    ensures
        placeholder(front + seq!['$', '{'] + rest) == Some(front.len() as int),
    decreases front.len(),
{
    let s = front + seq!['$', '{'] + rest;
    if front.len() == 0 {
        assert(s[0] == '$' && s[1] == '{');
    } else {
        let tail = front.skip(1);
        assert forall|i: int| 0 <= i < tail.len() - 1 implies !(#[trigger] tail[i] == '$' && tail[i
            + 1] == '{') by {
            assert(front[i + 1] == tail[i] && front[i + 2] == tail[i + 1]);
        }
        lemma_first_placeholder(tail, rest);
        assert(s.skip(1) =~= tail + seq!['$', '{'] + rest);
        assert(s[0] == front[0]);
        if front.len() > 1 {
            assert(s[1] == front[1]);
        } else {
            assert(s[1] == '$');
        }
    }
}

/// The first placeholder of a text gives way to the value of the variable that it names;
/// what stands before it stays, and what follows it is looked through in the same way. A
/// variable that is not set is an error that names it, and so is a placeholder that is
/// not closed.
pub proof fn law_first_placeholder(front: Seq<char>, name: Seq<char>, rest: Seq<char>, env: Env)
    requires
        has_no_placeholder(front),
        forall|i: int| 0 <= i < name.len() ==> #[trigger] name[i] != '}',
    ensures
        match (
            value_named(env, name),
            interpolated(front + seq!['$', '{'] + (name + seq!['}'] + rest), env),
        ) {
            (Some(text), Ok(whole)) => interpolated(rest, env) matches Ok(tail) && whole == front
                + text + tail,
            (Some(_), Err(e)) => interpolated(rest, env) == Err::<Seq<char>, ConfigErrorView>(e),
            (None, r) => r == Err::<Seq<char>, ConfigErrorView>(
                ConfigErrorView::MissingVariable { name },
            ),
        },
        interpolated(front + seq!['$', '{'] + name, env) == Err::<Seq<char>, ConfigErrorView>(
            ConfigErrorView::Unclosed,
        ),
{
    let n = front.len() as int;
    let after = name + seq!['}'] + rest;
    let value = front + seq!['$', '{'] + after;
    lemma_first_placeholder(front, after);
    assert(value.skip(n + 2) =~= after);
    assert(value.take(n) =~= front);
    let m = name.len() as int;
    lemma_index_of(after, '}');
    assert(after[m] == '}');
    let end = index_of(after, '}')->0;
    assert(end == m) by {
        if end < m {
            assert(after[end] == name[end]);
        }
    }
    assert(after.take(m) =~= name);
    assert(after.skip(m + 1) =~= rest);
    let open = front + seq!['$', '{'] + name;
    lemma_first_placeholder(front, name);
    assert(open.skip(n + 2) =~= name);
    lemma_index_of(name, '}');
    if index_of(name, '}') is Some {
        assert(name[index_of(name, '}')->0] == '}');
    }
}

/// Filling in placeholders fills in those of the model, the prompt, the keys, the base
/// URLs and the tokens, each under its name, and leaves everything else as it is. It
/// fails only where one of these cannot be filled in.
pub proof fn law_config_interpolated(c: ConfigView, env: Env)
    ensures
        match config_interpolated(c, env) {
            Ok(next) => {
                &&& is_filled_in(next.default_model, c.default_model, env)
                &&& is_filled_in(next.system_prompt, c.system_prompt, env)
                &&& are_filled_in(next.api_keys, c.api_keys, env)
                &&& are_filled_in(next.base_urls, c.base_urls, env)
                &&& next.oauth_tokens.len() == c.oauth_tokens.len()
                &&& forall|i: int|
                    0 <= i < c.oauth_tokens.len() ==> {
                        &&& (#[trigger] next.oauth_tokens[i]).0 == c.oauth_tokens[i].0
                        &&& interpolated(c.oauth_tokens[i].1.access_token, env) == Ok::<
                            Seq<char>,
                            ConfigErrorView,
                        >(next.oauth_tokens[i].1.access_token)
                        &&& is_filled_in(
                            next.oauth_tokens[i].1.refresh_token,
                            c.oauth_tokens[i].1.refresh_token,
                            env,
                        )
                        &&& is_filled_in(
                            next.oauth_tokens[i].1.expires_at,
                            c.oauth_tokens[i].1.expires_at,
                            env,
                        )
                    }
                &&& next.models == c.models
                &&& next.keybindings == c.keybindings
                &&& next.max_tokens == c.max_tokens
                &&& next.temperature == c.temperature
                &&& next.compaction == c.compaction
            },
            Err(e) => {
                ||| optional_interpolated(c.default_model, env) is Err
                ||| texts_interpolated(c.api_keys, env) is Err
                ||| texts_interpolated(c.base_urls, env) is Err
                ||| tokens_interpolated(c.oauth_tokens, env) is Err
                ||| optional_interpolated(c.system_prompt, env) is Err
            },
        },
{
    lemma_texts_interpolated(c.api_keys, env);
    lemma_texts_interpolated(c.base_urls, env);
    lemma_tokens_interpolated(c.oauth_tokens, env);
}

/// A text, where there is one, was filled in.
pub open spec fn is_filled_in(
    after: Option<Seq<char>>,
    before: Option<Seq<char>>,
    env: Env,
) -> bool {
    match (before, after) {
        (Some(text), Some(filled)) => interpolated(text, env) == Ok::<Seq<char>, ConfigErrorView>(
            filled,
        ),
        (None, None) => true,
        _ => false,
    }
}

/// Texts were filled in, each under its name.
pub open spec fn are_filled_in(
    after: Seq<(Seq<char>, Seq<char>)>,
    before: Seq<(Seq<char>, Seq<char>)>,
    env: Env,
) -> bool {
    &&& after.len() == before.len()
    &&& forall|i: int|
        0 <= i < before.len() ==> (#[trigger] after[i]).0 == before[i].0 && interpolated(
            before[i].1,
            env,
        ) == Ok::<Seq<char>, ConfigErrorView>(after[i].1)
}

proof fn lemma_texts_interpolated(pairs: Seq<(Seq<char>, Seq<char>)>, env: Env)
    ensures
        texts_interpolated(pairs, env) matches Ok(filled) ==> are_filled_in(filled, pairs, env),
    decreases pairs.len(),
{
    if pairs.len() > 0 {
        let front = pairs.drop_last();
        lemma_texts_interpolated(front, env);
        assert(forall|j: int| 0 <= j < front.len() ==> front[j] == #[trigger] pairs[j]);
        if let Ok(filled) = texts_interpolated(pairs, env) {
            let before = texts_interpolated(front, env)->Ok_0;
            assert forall|i: int| 0 <= i < pairs.len() implies (#[trigger] filled[i]).0
                == pairs[i].0 && interpolated(pairs[i].1, env) == Ok::<Seq<char>, ConfigErrorView>(
                filled[i].1,
            ) by {
                if i < front.len() {
                    assert(filled[i] == before[i]);
                    assert(front[i] == pairs[i]);
                }
            }
        }
    }
}

proof fn lemma_tokens_interpolated(pairs: Seq<(Seq<char>, TokenView)>, env: Env)
    ensures
        tokens_interpolated(pairs, env) matches Ok(filled) ==> filled.len() == pairs.len()
            && forall|i: int|
            0 <= i < pairs.len() ==> (#[trigger] filled[i]).0 == pairs[i].0 && token_interpolated(
                pairs[i].1,
                env,
            ) == Ok::<TokenView, ConfigErrorView>(filled[i].1),
    decreases pairs.len(),
{
    if pairs.len() > 0 {
        let front = pairs.drop_last();
        lemma_tokens_interpolated(front, env);
        if let Ok(filled) = tokens_interpolated(pairs, env) {
            let before = tokens_interpolated(front, env)->Ok_0;
            assert forall|i: int| 0 <= i < pairs.len() implies (#[trigger] filled[i]).0
                == pairs[i].0 && token_interpolated(pairs[i].1, env) == Ok::<
                TokenView,
                ConfigErrorView,
            >(filled[i].1) by {
                if i < front.len() {
                    assert(filled[i] == before[i]);
                    assert(front[i] == pairs[i]);
                }
            }
        }
    }
}

} // verus!
