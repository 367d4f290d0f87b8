//! What holds of an agent that keeps its turns in a session, and of the choice of a
//! provider.

use vstd::prelude::*;

use crate::agent::{
    added_messages, before_slash, compaction_problem, entry_ids_of, first_kept, is_choice, key_for,
    key_variable, messages_of, runner_for, settings_of, turn_kept, with_compactions, with_ids, with_messages, ProviderChoiceError,
    RunnerView, TurnError,
};
use crate::agent_loop::{compacted_messages, summary_message};
use crate::cloudflare::{first_placeholder, placeholder_names, resolved};
use crate::compaction::CompactionView;
use crate::config::{value_named, ConfigView, Env};
use crate::error::ErrorView;
use crate::session::{ContextView, EntryKind, SessionView};
use crate::text::{contains, index_of, lemma_index_of};
use crate::text_laws::lemma_contains_part;
use crate::types::{model_parts, MessageView, ProviderConfig};

verus! {

// ---------------------------------------------------------------------------
// Turns
// ---------------------------------------------------------------------------

/// An agent goes on with the session and the conversation that it is given, under the
/// model that it is given and what its configuration says.
pub proof fn law_agent_takes_up_its_session(
    config: ConfigView,
    model: Seq<char>,
    session: SessionView,
    context: Seq<ContextView>,
    i: int,
)
    requires
        0 <= i < context.len(),
    ensures
        ({
            let r = runner_for(config, model, session, context);
            &&& r.config == config
            &&& r.model == model
            &&& r.session == session
            &&& r.context == context
            &&& r.system_prompt == config.system_prompt
            &&& r.compaction_settings == settings_of(config)
        }),
        messages_of(context).len() == context.len(),
        messages_of(context)[i] == context[i].message,
        entry_ids_of(context).len() == context.len(),
        entry_ids_of(context)[i] == context[i].entry_id,
{
}

/// After a turn in which nothing was compacted, the conversation is what it was and the
/// messages that the turn has added, each under the identifier of its entry. The session
/// has gained an entry and a leaf for each of them.
pub proof fn law_turn_is_kept(
    r: RunnerView,
    messages: Seq<MessageView>,
    entry_ids: Seq<Option<Seq<char>>>,
    ids: Env,
)
    requires
        entry_ids.len() <= messages.len(),
    ensures
        ({
            let (next, problem) = turn_kept(r, messages, Seq::empty(), entry_ids, ids);
            let before = r.context.len() as int;
            let old_len = entry_ids.len() as int;
            let added = messages.len() - old_len;
            let first = r.session.entries.len() as int;
            &&& problem is None
            &&& next.context.len() == before + added
            &&& forall|i: int| 0 <= i < before ==> next.context[i] == #[trigger] r.context[i]
            &&& forall|i: int|
                old_len <= i < messages.len() ==> next.context[before + i - old_len]
                    == (ContextView {
                    message: #[trigger] messages[i],
                    entry_id: Some(ids[i - old_len].0),
                })
            &&& next.session.entries.len() == first + 2 * added
            &&& forall|i: int|
                old_len <= i < messages.len() ==> next.session.entries[first + 2 * (i
                    - old_len)].kind == (EntryKind::Message { message: #[trigger] messages[i] })
            &&& next.session.entries.take(first) == r.session.entries
            &&& next.model == r.model
            &&& next.system_prompt == r.system_prompt
            &&& next.compaction_settings == r.compaction_settings
        }),
{
    let n = entry_ids.len() as int;
    let added = messages.skip(n);
    lemma_entries_added(r.session, added, ids);
    let next = turn_kept(r, messages, Seq::empty(), entry_ids, ids).0;
    assert forall|i: int| n <= i < messages.len() implies next.context[r.context.len() + i - n] == (
    ContextView { message: #[trigger] messages[i], entry_id: Some(ids[i - n].0) }) by {
        assert(added[i - n] == messages[i]);
        assert(with_ids(added, ids)[i - n].message == added[i - n]);
    }
    assert forall|i: int| n <= i < messages.len() implies next.session.entries[r.session.entries.len()
        + 2 * (i - n)].kind == (EntryKind::Message { message: #[trigger] messages[i] }) by {
        assert(added[i - n] == messages[i]);
    }
}

proof fn lemma_entries_added(s: SessionView, messages: Seq<MessageView>, ids: Env)
    ensures
        ({
            let entries = with_messages(s, messages, ids).entries;
            let first = s.entries.len() as int;
            &&& entries.len() == first + 2 * messages.len()
            &&& entries.take(first) == s.entries
            &&& forall|i: int|
                0 <= i < messages.len() ==> entries[first + 2 * i].kind == (EntryKind::Message {
                    message: #[trigger] messages[i],
                })
        }),
    decreases messages.len(),
{
    let first = s.entries.len() as int;
    let entries = with_messages(s, messages, ids).entries;
    if messages.len() == 0 {
        assert(entries.take(first) =~= s.entries);
    } else {
        let front = messages.drop_last();
        lemma_entries_added(s, front, ids);
        let before = with_messages(s, front, ids).entries;
        assert(entries.take(first) =~= before.take(first));
        assert forall|i: int| 0 <= i < messages.len() implies entries[first + 2 * i].kind == (
        EntryKind::Message { message: #[trigger] messages[i] }) by {
            if i < front.len() {
                assert(front[i] == messages[i]);
                assert(entries[first + 2 * i] == before[first + 2 * i]);
            }
        }
    }
}

/// A conversation after some compactions, one after the other.
pub open spec fn compacted_by(messages: Seq<MessageView>, results: Seq<CompactionView>) -> Seq<
    MessageView,
>
    decreases results.len(),
{
    if results.len() == 0 {
        messages
    } else {
        compacted_messages(
            compacted_by(messages, results.drop_last()),
            results.last().summary,
            results.last().first_kept_message_index,
        )
    }
}

/// Each of some compactions, but for the first, takes the summary of the one before away,
/// and keeps from a message that is there.
pub open spec fn are_in_range(messages: Seq<MessageView>, results: Seq<CompactionView>) -> bool {
    forall|i: int|
        0 < i <= results.len() ==> {
            &&& 0 <= first_kept(#[trigger] results.take(i)) <= messages.len()
            &&& i > 1 ==> results[i - 1].first_kept_message_index >= 1
        }
}

/// After some compactions a conversation is the last summary and the messages from the
/// first kept one on, counted among the messages before the first of them.
pub proof fn law_first_kept_counts_from_the_start(
    messages: Seq<MessageView>,
    results: Seq<CompactionView>,
)
    requires
        results.len() > 0,
        are_in_range(messages, results),
    ensures
        compacted_by(messages, results) == seq![summary_message(results.last().summary)]
            + messages.skip(first_kept(results)),
    decreases results.len(),
{
    let front = results.drop_last();
    let n = results.len() as int;
    assert(results.take(n) =~= results);
    assert(0 <= first_kept(results.take(n)) <= messages.len());
    if results.len() == 1 {
        assert(compacted_by(messages, front) == messages);
        assert(results.last() == results[0]);
    } else {
        assert forall|i: int| 0 < i <= front.len() implies {
            &&& 0 <= first_kept(#[trigger] front.take(i)) <= messages.len()
            &&& i > 1 ==> front[i - 1].first_kept_message_index >= 1
        } by {
            assert(front.take(i) =~= results.take(i));
            assert(0 <= first_kept(results.take(i)) <= messages.len());
            assert(front[i - 1] == results[i - 1]);
        }
        law_first_kept_counts_from_the_start(messages, front);
        let k = first_kept(front);
        let m = results.last().first_kept_message_index;
        assert(front.take(front.len() as int) =~= front);
        assert(results[n - 1].first_kept_message_index >= 1);
        let before = compacted_by(messages, front);
        assert(before.skip(m) =~= messages.skip(k + m - 1));
        assert(compacted_by(messages, results) =~= seq![summary_message(results.last().summary)]
            + messages.skip(first_kept(results)));
    }
}

/// The messages that a turn with compactions has added are those behind what was kept of
/// the messages before it.
pub proof fn law_added_messages(
    before: Seq<MessageView>,
    added: Seq<MessageView>,
    results: Seq<CompactionView>,
    summary: MessageView,
)
    requires
        0 <= first_kept(results) <= before.len(),
    ensures
        added_messages(
            seq![summary] + before.skip(first_kept(results)) + added,
            results,
            before.len() as int,
        ) == added,
{
    let k = first_kept(results);
    let messages = seq![summary] + before.skip(k) + added;
    assert(messages.skip(1 + before.len() - k) =~= added);
}

/// Each compaction of a turn is an entry of the session, with its summary, and keeps from
/// the entry of the message that it keeps from. The first that cannot be kept ends that,
/// and what came before it stays.
pub proof fn law_compactions_are_kept(
    s: SessionView,
    results: Seq<CompactionView>,
    entry_ids: Seq<Option<Seq<char>>>,
    ids: Env,
)
    requires
        results.len() > 0,
    ensures
        ({
            let (before, early) = with_compactions(s, results.drop_last(), entry_ids, ids);
            let (after, problem) = with_compactions(s, results, entry_ids, ids);
            &&& early is Some ==> after == before && problem == early
            &&& early is None ==> match compaction_problem(results, entry_ids) {
                Some(e) => after == before && problem == Some(e),
                None => {
                    let n = before.entries.len() as int;
                    let k = first_kept(results);
                    &&& problem is None
                    &&& after.entries.len() == n + 2
                    &&& after.entries.take(n) == before.entries
                    &&& 0 <= k < entry_ids.len()
                    &&& after.entries[n].kind matches EntryKind::Compaction {
                        summary,
                        first_kept_entry_id,
                        tokens_before,
                    } && summary == results.last().summary && entry_ids[k] == Some(
                        first_kept_entry_id,
                    ) && tokens_before == results.last().tokens_before
                },
            }
        }),
{
    let (before, early) = with_compactions(s, results.drop_last(), entry_ids, ids);
    let (after, problem) = with_compactions(s, results, entry_ids, ids);
    if early is None && compaction_problem(results, entry_ids) is None {
        assert(after.entries.take(before.entries.len() as int) =~= before.entries);
    }
}

/// A compaction can be kept exactly where the message that it keeps from has an entry,
/// and, but for the first, where it takes the summary before it away.
pub proof fn law_compaction_problems(
    results: Seq<CompactionView>,
    entry_ids: Seq<Option<Seq<char>>>,
)
    requires
        results.len() > 0,
        entry_ids.len() <= usize::MAX,
    ensures
        compaction_problem(results, entry_ids) is None <==> {
            &&& results.len() > 1 ==> results.last().first_kept_message_index != 0
            &&& 0 <= first_kept(results) < entry_ids.len()
            &&& entry_ids[first_kept(results)] is Some
        },
        compaction_problem(results, entry_ids) matches Some(TurnError::KeepsSummary { .. })
            <==> results.len() > 1 && results.last().first_kept_message_index == 0,
{
}

// ---------------------------------------------------------------------------
// Providers
// ---------------------------------------------------------------------------

/// The key of the configuration comes before that of the environment.
pub proof fn law_key_for(config: ConfigView, provider: Seq<char>, env: Env)
    ensures
        value_named(config.api_keys, provider) is Some ==> key_for(config, provider, env)
            == value_named(config.api_keys, provider),
        value_named(config.api_keys, provider) is None ==> key_for(config, provider, env)
            == value_named(env, key_variable(provider)),
{
}

/// A provider is chosen exactly where the model names one that is known and there is a
/// key for it. The name of the model is what follows that of the provider.
pub proof fn law_choice(
    r: Result<(ProviderConfig, String), ProviderChoiceError>,
    config: ConfigView,
    model: Seq<char>,
    env: Env,
)
    requires
        is_choice(r, config, model, env),
    ensures
        model_parts(model) is None <==> r matches Err(ProviderChoiceError::NoProvider),
        r matches Ok((_, name)) ==> (model_parts(model) matches Some(parts) && parts.1 == name@
            && key_for(config, parts.0, env) is Some),
        r matches Err(ProviderChoiceError::NoApiKey { provider }) ==> (
        model_parts(model) matches Some(parts) && parts.0 == provider@ && key_for(
            config,
            parts.0,
            env,
        ) is None),
        r matches Ok((ProviderConfig::OpenAi { api_key, base_url }, _)) ==> (
        model_parts(model) matches Some(parts) && key_for(config, parts.0, env) == Some(api_key@)
            && base_url.deep_view() == value_named(config.base_urls, parts.0)),
        r matches Ok((ProviderConfig::Anthropic { api_key, base_url }, _)) ==> (
        model_parts(model) matches Some(parts) && parts.0 == "anthropic"@ && key_for(
            config,
            parts.0,
            env,
        ) == Some(api_key@) && base_url.deep_view() == value_named(config.base_urls, parts.0)),
        r matches Ok((ProviderConfig::OpenAi { .. }, _)) ==> (model_parts(model) matches Some(parts)
            && (parts.0 == "openai"@ || parts.0 == "azure"@)),
        r matches Ok((ProviderConfig::Ollama { base_url }, _)) ==> (
        model_parts(model) matches Some(parts) && parts.0 == "ollama"@ && match value_named(
            config.base_urls,
            parts.0,
        ) {
            Some(url) => base_url@ == url,
            None => base_url@ == "http://localhost:11434"@,
        }),
        r matches Ok((ProviderConfig::Gitlawb { api_key, base_url }, _)) ==> (
        model_parts(model) matches Some(parts) && parts.0 == "gitlawb"@ && key_for(
            config,
            parts.0,
            env,
        ) == Some(api_key@) && base_url.deep_view() == value_named(config.base_urls, parts.0)),
        r matches Err(ProviderChoiceError::UnknownProvider { provider }) ==> (
        model_parts(model) matches Some(parts) && parts.0 == provider@ && parts.0 != "openai"@
            && parts.0 != "azure"@ && parts.0 != "anthropic"@ && parts.0 != "ollama"@ && parts.0
            != "gitlawb"@),
{
}

/// The settings of the configuration are those of the loop.
pub proof fn law_settings_of(config: ConfigView)
    ensures
        config.compaction is None <==> settings_of(config) is None,
        settings_of(config) matches Some(own) ==> (config.compaction matches Some(c) && own.enabled
            == c.enabled && own.context_window == c.context_window && own.reserve_tokens
            == c.reserve_tokens && own.keep_recent_tokens == c.keep_recent_tokens),
{
}

/// What stands before the first slash of a text.
pub proof fn law_before_slash(front: Seq<char>, rest: Seq<char>)
    requires
        forall|i: int| 0 <= i < front.len() ==> #[trigger] front[i] != '/',
    ensures
        before_slash(front) == front,
        before_slash(front + seq!['/'] + rest) == front,
{
    let s = front + seq!['/'] + rest;
    lemma_index_of(front, '/');
    if index_of(front, '/') is Some {
        assert(front[index_of(front, '/')->0] == '/');
    }
    lemma_index_of(s, '/');
    assert(s[front.len() as int] == '/');
    let i = index_of(s, '/')->0;
    assert(i == front.len()) by {
        if i < front.len() {
            assert(s[i] == front[i]);
        }
    }
    assert(s.take(i) =~= front);
}

// ---------------------------------------------------------------------------
// Placeholders in URLs
// ---------------------------------------------------------------------------

proof fn lemma_braces(front: Seq<char>, name: Seq<char>, rest: Seq<char>)
    requires
        forall|i: int| 0 <= i < front.len() ==> #[trigger] front[i] != '{',
        forall|i: int| 0 <= i < name.len() ==> #[trigger] name[i] != '}',
    ensures
        ({
            let url = front + seq!['{'] + name + seq!['}'] + rest;
            let n = front.len() as int;
            let m = name.len() as int;
            &&& index_of(url, '{') == Some(n)
            &&& index_of(url.skip(n + 1), '}') == Some(m)
            &&& url.skip(n + 1).take(m) == name
            &&& url.skip(n + 1).skip(m + 1) == rest
            &&& url.take(n) == front
            &&& url.subrange(n + 1, n + 1 + m) == name
            &&& url.skip(n + m + 2) == rest
            &&& n + m + 2 <= url.len()
        }),
{
    let url = front + seq!['{'] + name + seq!['}'] + rest;
    let n = front.len() as int;
    let m = name.len() as int;
    let after = url.skip(n + 1);
    assert(after =~= name + seq!['}'] + rest);
    lemma_index_of(url, '{');
    lemma_index_of(after, '}');
    assert(url[n] == '{');
    assert(after[m] == '}');
    let i = index_of(url, '{')->0;
    assert(i == n) by {
        if i < n {
            assert(url[i] == front[i]);
        }
    }
    let j = index_of(after, '}')->0;
    assert(j == m) by {
        if j < m {
            assert(after[j] == name[j]);
        }
    }
    assert(after.take(m) =~= name);
    assert(after.skip(m + 1) =~= rest);
    assert(url.take(n) =~= front);
    assert(url.subrange(n + 1, n + 1 + m) =~= name);
    assert(url.skip(n + m + 2) =~= rest);
}

/// The first name of a variable in braces gives way to the value of the variable, and
/// what stands before it stays; the others follow in order. Where the variable is not
/// set, there is an error that names it and the provider.
pub proof fn law_variable_in_a_url(
    front: Seq<char>,
    name: Seq<char>,
    rest: Seq<char>,
    provider: Seq<char>,
    values: Seq<Option<Seq<char>>>,
)
    requires
        forall|i: int| 0 <= i < front.len() ==> #[trigger] front[i] != '{',
        crate::cloudflare::is_variable_name(name),
        values.len() > 0,
    ensures
        ({
            let url = front + seq!['{'] + name + seq!['}'] + rest;
            &&& placeholder_names(url) == seq![name] + placeholder_names(rest)
            &&& match (values[0], resolved(url, provider, values)) {
                (Some(value), Ok(whole)) => resolved(rest, provider, values.skip(1)) matches Ok(
                    tail,
                ) && whole == front + value + tail,
                (Some(_), Err(e)) => resolved(rest, provider, values.skip(1)) == Err::<
                    Seq<char>,
                    ErrorView,
                >(e),
                (None, r) => r matches Err(ErrorView::Config(message)) && contains(message, name)
                    && contains(message, provider),
            }
        }),
{
    assert forall|i: int| 0 <= i < name.len() implies #[trigger] name[i] != '}' by {
        assert(crate::cloudflare::starts_name(name[i]) || '0' <= name[i] <= '9');
    }
    lemma_braces(front, name, rest);
    let url = front + seq!['{'] + name + seq!['}'] + rest;
    let n = front.len() as int;
    assert(url.subrange(n + 1, n + 1 + name.len()) =~= name);
    let back = " is required for provider "@ + provider + " but is not set."@;
    let message = name + " is required for provider "@ + provider + " but is not set."@;
    lemma_contains_part(seq![], name, back);
    assert(Seq::<char>::empty() + name + back =~= message);
    lemma_contains_part(
        name + " is required for provider "@,
        provider,
        " but is not set."@,
    );
}

/// The name of a variable is made of capital letters, digits and underscores, and does
/// not begin with a digit.
pub proof fn law_variable_names(name: Seq<char>)
    ensures
        crate::cloudflare::is_variable_name(name) <==> {
            &&& name.len() > 0
            &&& !('0' <= name[0] <= '9')
            &&& forall|i: int|
                0 <= i < name.len() ==> {
                    ||| 'A' <= #[trigger] name[i] <= 'Z'
                    ||| '0' <= name[i] <= '9'
                    ||| name[i] == '_'
                }
        },
{
}

/// A name in braces that is none of a variable is passed over.
pub proof fn law_other_braces_in_a_url(
    front: Seq<char>,
    name: Seq<char>,
    rest: Seq<char>,
    provider: Seq<char>,
    values: Seq<Option<Seq<char>>>,
)
    requires
        forall|i: int| 0 <= i < front.len() ==> #[trigger] front[i] != '{',
        forall|i: int| 0 <= i < name.len() ==> #[trigger] name[i] != '}',
        !crate::cloudflare::is_variable_name(name),
    ensures
        ({
            let url = front + seq!['{'] + name + seq!['}'] + rest;
            let passed = front + seq!['{'] + name + seq!['}'];
            &&& placeholder_names(url) == placeholder_names(rest)
            &&& match (resolved(rest, provider, values), resolved(url, provider, values)) {
                (Ok(tail), Ok(whole)) => whole == passed + tail,
                (Err(a), Err(b)) => a == b,
                _ => false,
            }
        }),
{
    let url = front + seq!['{'] + name + seq!['}'] + rest;
    let passed = front + seq!['{'] + name + seq!['}'];
    let n = passed.len() as int;
    lemma_braces(front, name, rest);
    crate::cloudflare::lemma_first_placeholder(rest);
    match first_placeholder(rest) {
        None => {
            assert(url =~= passed + rest);
        },
        Some((start, end)) => {
            assert(first_placeholder(url) == Some((start + n, end + n)));
            assert(url.skip(end + n + 1) =~= rest.skip(end + 1));
            assert(url.take(start + n) =~= passed + rest.take(start));
            assert(url.subrange(start + n + 1, end + n) =~= rest.subrange(start + 1, end));
            if let Ok(whole) = resolved(url, provider, values) {
                assert(whole =~= passed + resolved(rest, provider, values)->Ok_0);
            }
        },
    }
}

} // verus!
